//! Entity-table models with last-write-wins upsert semantics.
//!
//! The wide-column store keeps one row per entity id for tracks and for
//! artists; every write is an upsert, so writing a row again simply
//! leaves the row the write describes. That idempotence is what makes
//! at-least-once task processing safe: a duplicate crawl rewrites the
//! same rows and the observable table state does not change.

use vstd::prelude::*;
use crate::types::Artist;
use crate::types::ArtistModel;
use crate::types::NormTrackModel;
use crate::types::NormalizedTrack;
use crate::types::artist_views;
use crate::types::ntrack_views;

verus! {

/// A row model that is stored under a key of its own.
pub trait Keyed {
    /// The primary key the store files the row under.
    spec fn key(self) -> Seq<char>;
}

impl Keyed for NormTrackModel {
    open spec fn key(self) -> Seq<char> {
        self.id
    }
}

impl Keyed for ArtistModel {
    open spec fn key(self) -> Seq<char> {
        self.id
    }
}

pub open spec fn has_key<V: Keyed>(rows: Seq<V>, x: Seq<char>) -> bool {
    exists|i: int| 0 <= i < rows.len() && rows[i].key() == x
}

pub open spec fn key_index<V: Keyed>(rows: Seq<V>, x: Seq<char>) -> int {
    choose|i: int| 0 <= i < rows.len() && rows[i].key() == x
}

pub open spec fn model_map<V: Keyed>(rows: Seq<V>) -> Map<Seq<char>, V> {
    Map::new(|x: Seq<char>| has_key(rows, x), |x: Seq<char>| rows[key_index(rows, x)])
}

pub open spec fn unique_keys<V: Keyed>(rows: Seq<V>) -> bool {
    forall|i: int, j: int| 0 <= i < j < rows.len() ==> rows[i].key() != rows[j].key()
}

/// Last-write-wins application of `rows` to table state `m`, in order:
/// each row lands under its key, a later row with the same key
/// overwriting an earlier one.
pub open spec fn upsert_effect<V: Keyed>(m: Map<Seq<char>, V>, rows: Seq<V>) -> Map<
    Seq<char>,
    V,
>
    decreases rows.len(),
{
    if rows.len() == 0 {
        m
    } else {
        upsert_effect(m, rows.drop_last()).insert(rows.last().key(), rows.last())
    }
}

/// The last row of `rows` carrying key `x`.
pub open spec fn last_with_key<V: Keyed>(rows: Seq<V>, x: Seq<char>) -> V
    decreases rows.len(),
{
    if rows.len() == 0 {
        arbitrary()
    } else if rows.last().key() == x {
        rows.last()
    } else {
        last_with_key(rows.drop_last(), x)
    }
}

/// What an upsert leaves under each key: rows written land as the last
/// write under their key, everything else stays exactly as it was.
pub proof fn lemma_upsert_effect_at<V: Keyed>(m: Map<Seq<char>, V>, rows: Seq<V>, x: Seq<char>)
    ensures
        has_key(rows, x) ==> upsert_effect(m, rows).dom().contains(x) && upsert_effect(m, rows)[x]
            == last_with_key(rows, x),
        !has_key(rows, x) ==> upsert_effect(m, rows).dom().contains(x) == m.dom().contains(x)
            && (m.dom().contains(x) ==> upsert_effect(m, rows)[x] == m[x]),
    decreases rows.len(),
{
    if rows.len() > 0 {
        lemma_upsert_effect_at(m, rows.drop_last(), x);
        if rows.last().key() == x {
        } else {
            if has_key(rows, x) {
                let i = key_index(rows, x);
                assert(0 <= i < rows.len() && rows[i].key() == x);
                assert(i < rows.len() - 1);
                assert(rows.drop_last()[i] == rows[i]);
                assert(has_key(rows.drop_last(), x));
            }
            if has_key(rows.drop_last(), x) {
                let i = key_index(rows.drop_last(), x);
                assert(rows[i] == rows.drop_last()[i]);
                assert(has_key(rows, x));
            }
        }
    }
}

/// Idempotence of the bulk upsert: applying the same rows twice leaves
/// the table in the same observable state as applying them once.
pub proof fn lemma_upsert_idempotent<V: Keyed>(m: Map<Seq<char>, V>, rows: Seq<V>)
    ensures
        upsert_effect(upsert_effect(m, rows), rows) == upsert_effect(m, rows),
{
    let once = upsert_effect(m, rows);
    let twice = upsert_effect(once, rows);
    assert forall|x: Seq<char>| #[trigger] twice.dom().contains(x)
        implies once.dom().contains(x) && twice[x] == once[x] by {
        lemma_upsert_effect_at(m, rows, x);
        lemma_upsert_effect_at(once, rows, x);
    }
    assert forall|x: Seq<char>| #[trigger] once.dom().contains(x)
        implies twice.dom().contains(x) by {
        lemma_upsert_effect_at(m, rows, x);
        lemma_upsert_effect_at(once, rows, x);
    }
    assert(twice =~= once);
}

proof fn lemma_fresh_key_view<V: Keyed>(rows: Seq<V>, row: V)
    requires
        unique_keys(rows),
        !has_key(rows, row.key()),
    ensures
        unique_keys(rows.push(row)),
        model_map(rows.push(row)) == model_map(rows).insert(row.key(), row),
{
    let rows2 = rows.push(row);
    assert forall|i: int, j: int| 0 <= i < j < rows2.len()
        implies rows2[i].key() != rows2[j].key() by {
        if j < rows.len() {
        } else {
            assert(rows2[j] == row);
            assert(rows2[i] == rows[i]);
        }
    }
    assert forall|x: Seq<char>| #[trigger] model_map(rows2).dom().contains(x)
        implies model_map(rows).insert(row.key(), row).dom().contains(x) by {
        let i = key_index(rows2, x);
        if i < rows.len() {
            assert(rows[i].key() == x);
            assert(has_key(rows, x));
        } else {
            assert(rows2[i] == row);
        }
    }
    assert forall|x: Seq<char>| #[trigger] model_map(rows).insert(row.key(), row).dom().contains(
        x,
    ) implies model_map(rows2).dom().contains(x) by {
        if x == row.key() {
            assert(rows2[rows.len() as int].key() == x);
            assert(has_key(rows2, x));
        } else {
            let i = key_index(rows, x);
            assert(rows2[i].key() == x);
            assert(has_key(rows2, x));
        }
    }
    assert forall|x: Seq<char>| #[trigger] model_map(rows2).dom().contains(x)
        implies model_map(rows2)[x] == model_map(rows).insert(row.key(), row)[x] by {
        let i = key_index(rows2, x);
        assert(0 <= i < rows2.len() && rows2[i].key() == x);
        if x == row.key() {
            if i < rows.len() {
                assert(has_key(rows, x));
            }
            assert(i == rows.len());
        } else {
            assert(i < rows.len());
            assert(has_key(rows, x));
            let j = key_index(rows, x);
            assert(j == i);
        }
    }
    assert(model_map(rows2) =~= model_map(rows).insert(row.key(), row));
}

proof fn lemma_update_key_view<V: Keyed>(rows: Seq<V>, i: int, row: V)
    requires
        unique_keys(rows),
        0 <= i < rows.len(),
        row.key() == rows[i].key(),
    ensures
        unique_keys(rows.update(i, row)),
        model_map(rows.update(i, row)) == model_map(rows).insert(row.key(), row),
{
    let rows2 = rows.update(i, row);
    assert forall|p: int, q: int| 0 <= p < q < rows2.len()
        implies rows2[p].key() != rows2[q].key() by {
        assert(rows2[p].key() == rows[p].key());
        assert(rows2[q].key() == rows[q].key());
    }
    assert forall|x: Seq<char>| has_key(rows2, x) == has_key(rows, x) by {
        if has_key(rows2, x) {
            let p = key_index(rows2, x);
            assert(rows2[p].key() == rows[p].key());
            assert(has_key(rows, x));
        }
        if has_key(rows, x) {
            let p = key_index(rows, x);
            assert(rows2[p].key() == rows[p].key());
            assert(has_key(rows2, x));
        }
    }
    assert forall|x: Seq<char>| #[trigger] model_map(rows2).dom().contains(x)
        implies model_map(rows2)[x] == model_map(rows).insert(row.key(), row)[x] by {
        let p = key_index(rows2, x);
        assert(0 <= p < rows2.len() && rows2[p].key() == x);
        if x == row.key() {
            assert(p == i);
        } else {
            assert(p != i);
            assert(rows2[p] == rows[p]);
            let q = key_index(rows, x);
            assert(q == p);
        }
    }
    assert(model_map(rows2) =~= model_map(rows).insert(row.key(), row));
}

/// The shared track table, one row per track id.
pub struct TrackTable {
    rows: Vec<NormalizedTrack>,
}

impl View for TrackTable {
    type V = Map<Seq<char>, NormTrackModel>;

    closed spec fn view(&self) -> Map<Seq<char>, NormTrackModel> {
        model_map(ntrack_views(self.rows@))
    }
}

impl TrackTable {
    /// Whether the table representation is well formed: one row per id.
    pub closed spec fn wf(&self) -> bool {
        unique_keys(ntrack_views(self.rows@))
    }

    /// An empty track table.
    pub fn new() -> (t: TrackTable)
        ensures
            t.wf(),
            t@ == Map::<Seq<char>, NormTrackModel>::empty(),
    {
        let t = TrackTable { rows: Vec::new() };
        proof {
            assert forall|x: Seq<char>|
                !(#[trigger] model_map(ntrack_views(t.rows@)).dom().contains(x)) by {
                if has_key(ntrack_views(t.rows@), x) {
                    let i = key_index(ntrack_views(t.rows@), x);
                }
            }
            assert(t@ =~= Map::<Seq<char>, NormTrackModel>::empty());
        }
        t
    }

    /// Upserts every row of `rows` in order, last write winning per id.
    #[verifier::loop_isolation(false)]
    pub fn upsert_tracks(&mut self, rows: Vec<NormalizedTrack>)
        requires
            old(self).wf(),
        ensures
            final(self).wf(),
            final(self)@ == upsert_effect(old(self)@, ntrack_views(rows@)),
    {
        let ghost rv = ntrack_views(rows@);
        proof {
            assert(ntrack_views(rows@) =~= rv.skip(0));
        }
        let mut rest = rows;
        let ghost mut done: int = 0;
        while rest.len() > 0
            invariant
                0 <= done <= rv.len(),
                done == rv.len() - rest@.len(),
                ntrack_views(rest@) == rv.skip(done),
                self.wf(),
                self@ == upsert_effect(old(self)@, rv.take(done)),
            decreases rest@.len(),
        {
            let ghost rprev = rest@;
            let row = rest.remove(0);
            proof {
                assert(rest@ =~= rprev.drop_first());
                assert forall|k: int| 0 <= k < rest@.len()
                    implies ntrack_views(rest@)[k] == rv.skip(done + 1)[k] by {
                    assert(rest@[k] == rprev[k + 1]);
                    assert(ntrack_views(rprev)[k + 1] == rprev[k + 1]@);
                    assert(rv.skip(done)[k + 1] == rv[done + 1 + k]);
                }
                assert(ntrack_views(rest@) =~= rv.skip(done + 1));
                assert(rv.skip(done)[0] == row@);
                assert(rv[done] == row@);
                assert(rv.take(done + 1).drop_last() =~= rv.take(done));
                assert(rv.take(done + 1).last() == row@);
            }
            let found = find_track_row(&self.rows, &row.id);
            let ghost pre = ntrack_views(self.rows@);
            match found {
                Some(i) => {
                    proof {
                        lemma_update_key_view(pre, i as int, row@);
                    }
                    let ghost prerows = self.rows@;
                    self.rows.set(i, row);
                    proof {
                        assert(ntrack_views(prerows.update(i as int, row)) =~= pre.update(
                            i as int,
                            row@,
                        ));
                    }
                },
                None => {
                    proof {
                        lemma_fresh_key_view(pre, row@);
                    }
                    let ghost prerows = self.rows@;
                    self.rows.push(row);
                    proof {
                        assert(ntrack_views(prerows.push(row)) =~= pre.push(row@));
                    }
                },
            }
            proof {
                assert(self@ == upsert_effect(old(self)@, rv.take(done)).insert(row@.key(), row@));
            }
            proof {
                done = done + 1;
            }
        }
        proof {
            assert(rv.take(rv.len() as int) =~= rv);
        }
    }

    /// Whether the table holds a row for track id `id`.
    pub fn contains_track(&self, id: &String) -> (b: bool)
        requires
            self.wf(),
        ensures
            b == self@.dom().contains(id@),
    {
        let found = find_track_row(&self.rows, id);
        proof {
            if found is Some {
                let i = found->Some_0 as int;
                assert(has_key(ntrack_views(self.rows@), id@));
            }
        }
        match found {
            Some(_) => true,
            None => false,
        }
    }
}

/// Finds the row of `rows` holding the track id `id`, if one exists.
#[verifier::loop_isolation(false)]
fn find_track_row(rows: &Vec<NormalizedTrack>, id: &String) -> (r: Option<usize>)
    ensures
        r matches Some(i) ==> i < rows@.len() && ntrack_views(rows@)[i as int].key() == id@,
        r is None ==> !has_key(ntrack_views(rows@), id@),
{
    let mut i: usize = 0;
    while i < rows.len()
        invariant
            i <= rows@.len(),
            forall|p: int| 0 <= p < i ==> (#[trigger] rows@[p]).id@ != id@,
        decreases rows@.len() - i,
    {
        if rows[i].id == *id {
            proof {
                assert(ntrack_views(rows@)[i as int].key() == id@);
            }
            return Some(i);
        }
        i = i + 1;
    }
    proof {
        if has_key(ntrack_views(rows@), id@) {
            let p = key_index(ntrack_views(rows@), id@);
            assert(ntrack_views(rows@)[p].key() == rows@[p].id@);
        }
    }
    None
}

/// Finds the row of `rows` holding the artist id `id`, if one exists.
#[verifier::loop_isolation(false)]
fn find_artist_row(rows: &Vec<Artist>, id: &String) -> (r: Option<usize>)
    ensures
        r matches Some(i) ==> i < rows@.len() && artist_views(rows@)[i as int].key() == id@,
        r is None ==> !has_key(artist_views(rows@), id@),
{
    let mut i: usize = 0;
    while i < rows.len()
        invariant
            i <= rows@.len(),
            forall|p: int| 0 <= p < i ==> (#[trigger] rows@[p]).id@ != id@,
        decreases rows@.len() - i,
    {
        if rows[i].id == *id {
            proof {
                assert(artist_views(rows@)[i as int].key() == id@);
            }
            return Some(i);
        }
        i = i + 1;
    }
    proof {
        if has_key(artist_views(rows@), id@) {
            let p = key_index(artist_views(rows@), id@);
            assert(artist_views(rows@)[p].key() == rows@[p].id@);
        }
    }
    None
}

/// The shared artist table, one row per artist id.
pub struct ArtistTable {
    rows: Vec<Artist>,
}

impl View for ArtistTable {
    type V = Map<Seq<char>, ArtistModel>;

    closed spec fn view(&self) -> Map<Seq<char>, ArtistModel> {
        model_map(artist_views(self.rows@))
    }
}

impl ArtistTable {
    /// Whether the table representation is well formed: one row per id.
    pub closed spec fn wf(&self) -> bool {
        unique_keys(artist_views(self.rows@))
    }

    /// An empty artist table.
    pub fn new() -> (t: ArtistTable)
        ensures
            t.wf(),
            t@ == Map::<Seq<char>, ArtistModel>::empty(),
    {
        let t = ArtistTable { rows: Vec::new() };
        proof {
            assert forall|x: Seq<char>|
                !(#[trigger] model_map(artist_views(t.rows@)).dom().contains(x)) by {
                if has_key(artist_views(t.rows@), x) {
                    let i = key_index(artist_views(t.rows@), x);
                }
            }
            assert(t@ =~= Map::<Seq<char>, ArtistModel>::empty());
        }
        t
    }

    /// Upserts every row of `rows` in order, last write winning per id.
    #[verifier::loop_isolation(false)]
    pub fn upsert_artists(&mut self, rows: Vec<Artist>)
        requires
            old(self).wf(),
        ensures
            final(self).wf(),
            final(self)@ == upsert_effect(old(self)@, artist_views(rows@)),
    {
        let ghost rv = artist_views(rows@);
        proof {
            assert(artist_views(rows@) =~= rv.skip(0));
        }
        let mut rest = rows;
        let ghost mut done: int = 0;
        while rest.len() > 0
            invariant
                0 <= done <= rv.len(),
                done == rv.len() - rest@.len(),
                artist_views(rest@) == rv.skip(done),
                self.wf(),
                self@ == upsert_effect(old(self)@, rv.take(done)),
            decreases rest@.len(),
        {
            let ghost rprev = rest@;
            let row = rest.remove(0);
            proof {
                assert(rest@ =~= rprev.drop_first());
                assert forall|k: int| 0 <= k < rest@.len()
                    implies artist_views(rest@)[k] == rv.skip(done + 1)[k] by {
                    assert(rest@[k] == rprev[k + 1]);
                    assert(artist_views(rprev)[k + 1] == rprev[k + 1]@);
                    assert(rv.skip(done)[k + 1] == rv[done + 1 + k]);
                }
                assert(artist_views(rest@) =~= rv.skip(done + 1));
                assert(rv.skip(done)[0] == row@);
                assert(rv[done] == row@);
                assert(rv.take(done + 1).drop_last() =~= rv.take(done));
                assert(rv.take(done + 1).last() == row@);
            }
            let found = find_artist_row(&self.rows, &row.id);
            let ghost pre = artist_views(self.rows@);
            match found {
                Some(i) => {
                    proof {
                        lemma_update_key_view(pre, i as int, row@);
                    }
                    let ghost prerows = self.rows@;
                    self.rows.set(i, row);
                    proof {
                        assert(artist_views(prerows.update(i as int, row)) =~= pre.update(
                            i as int,
                            row@,
                        ));
                    }
                },
                None => {
                    proof {
                        lemma_fresh_key_view(pre, row@);
                    }
                    let ghost prerows = self.rows@;
                    self.rows.push(row);
                    proof {
                        assert(artist_views(prerows.push(row)) =~= pre.push(row@));
                    }
                },
            }
            proof {
                assert(self@ == upsert_effect(old(self)@, rv.take(done)).insert(row@.key(), row@));
            }
            proof {
                done = done + 1;
            }
        }
        proof {
            assert(rv.take(rv.len() as int) =~= rv);
        }
    }

    /// Whether the table holds a row for artist id `id`.
    pub fn contains_artist(&self, id: &String) -> (b: bool)
        requires
            self.wf(),
        ensures
            b == self@.dom().contains(id@),
    {
        let found = find_artist_row(&self.rows, id);
        proof {
            if found is Some {
                let i = found->Some_0 as int;
                assert(has_key(artist_views(self.rows@), id@));
            }
        }
        match found {
            Some(_) => true,
            None => false,
        }
    }
}

} // verus!
