//! Planning for paginated and concurrency-bounded catalog retrieval.
//!
//! The top-level collection is fetched by following a cursor until the
//! terminal page carries none. Nested per-parent collections use a
//! two-phase strategy: parents are grouped into fixed-size bulk requests
//! that each return only the first page of children per parent, and any
//! parent reporting more children than that page gets offset-paginated
//! follow-up requests until its full count is covered. A failed group
//! drops only its own contribution. The request plans and the merging of
//! per-group results are verified here; the requests themselves are the
//! caller's I/O, issued at most a fixed number in flight.

use vstd::prelude::*;
use crate::batch::chunk_count;
use crate::batch::chunk_records;
use crate::batch::flatten_chunks;

verus! {

/// How many parent ids one bulk request may carry.
pub const ALBUM_GROUP_SIZE: usize = 20;

/// How many children the bulk phase returns per parent: its first page.
pub const TRACKS_LIMIT: usize = 20;

/// Page size of the offset-paginated second phase.
pub const TRACK_PAGE_LIMIT: usize = 50;

/// How many requests may be in flight at once.
pub const CONCURRENT_REQUESTS: usize = 16;

/// Error reported by one failed fetch.
#[derive(Debug, Clone, PartialEq, Eq)]
pub struct FetchError {
    pub message: String,
}

/// Mathematical view of a parent's bulk-phase report.
#[verifier::ext_equal]
pub ghost struct AlbumInfoModel {
    pub id: Seq<char>,
    pub total: int,
}

/// What the bulk phase reports for one parent: its id and its total
/// child count.
#[derive(Debug, Clone, PartialEq, Eq)]
pub struct AlbumInfo {
    pub id: String,
    pub total_tracks: usize,
}

impl View for AlbumInfo {
    type V = AlbumInfoModel;

    open spec fn view(&self) -> AlbumInfoModel {
        AlbumInfoModel { id: self.id@, total: self.total_tracks as int }
    }
}

/// The views of a sequence of bulk-phase reports.
pub open spec fn ainfo_views(s: Seq<AlbumInfo>) -> Seq<AlbumInfoModel> {
    s.map_values(|a: AlbumInfo| a@)
}

/// One fetched page of a cursor-paginated collection.
#[derive(Debug, Clone, PartialEq, Eq)]
pub struct Page<T> {
    pub items: Vec<T>,
    pub next: Option<String>,
}

/// Folds one fetched page into the accumulated items and hands back the
/// cursor to follow, `None` on the terminal page.
pub fn absorb_page<T>(acc: &mut Vec<T>, page: Page<T>) -> (next: Option<String>)
    ensures
        final(acc)@ == old(acc)@ + page.items@,
        next == page.next,
{
    let Page { items, next } = page;
    let mut items = items;
    acc.append(&mut items);
    next
}

/// Splits parent ids into bulk-request groups, in order: every group
/// but the last is full, none is empty, and the groups concatenate back
/// to exactly the input.
pub fn plan_album_groups(ids: Vec<String>) -> (groups: Vec<Vec<String>>)
    ensures
        flatten_chunks(groups@) == ids@,
        groups@.len() == chunk_count(ids@.len() as int, ALBUM_GROUP_SIZE as int),
        forall|i: int|
            0 <= i < groups@.len() - 1 ==> (#[trigger] groups@[i])@.len() == ALBUM_GROUP_SIZE,
        forall|i: int|
            0 <= i < groups@.len() ==> 1 <= (#[trigger] groups@[i])@.len() <= ALBUM_GROUP_SIZE,
{
    chunk_records(ids, ALBUM_GROUP_SIZE)
}

/// The parents whose reported child count exceeds the bulk page, in
/// order: exactly those that need the offset-paginated second phase.
pub open spec fn oversized(s: Seq<AlbumInfoModel>) -> Seq<AlbumInfoModel>
    decreases s.len(),
{
    if s.len() == 0 {
        Seq::empty()
    } else if s.last().total > TRACKS_LIMIT as int {
        oversized(s.drop_last()).push(s.last())
    } else {
        oversized(s.drop_last())
    }
}

/// Selects the parents that need the second phase: those reporting more
/// children than the bulk page returned.
#[verifier::loop_isolation(false)]
pub fn albums_needing_more_tracks(albums: &Vec<AlbumInfo>) -> (r: Vec<AlbumInfo>)
    ensures
        ainfo_views(r@) == oversized(ainfo_views(albums@)),
{
    let ghost av = ainfo_views(albums@);
    let mut r: Vec<AlbumInfo> = Vec::new();
    let mut i: usize = 0;
    while i < albums.len()
        invariant
            i <= av.len(),
            av == ainfo_views(albums@),
            ainfo_views(r@) == oversized(av.take(i as int)),
        decreases av.len() - i,
    {
        let a = &albums[i];
        proof {
            assert(av[i as int] == a@);
            assert(av.take(i + 1).drop_last() =~= av.take(i as int));
            assert(av.take(i + 1).last() == a@);
        }
        if a.total_tracks > TRACKS_LIMIT {
            let ghost prev = r@;
            r.push(AlbumInfo { id: a.id.clone(), total_tracks: a.total_tracks });
            proof {
                assert(r@[prev.len() as int]@ =~= a@);
                assert(ainfo_views(r@) =~= ainfo_views(prev).push(a@));
            }
        }
        i = i + 1;
    }
    proof {
        assert(av.take(av.len() as int) =~= av);
    }
    r
}

/// How many offset-paginated requests the second phase issues for a
/// parent with `total` children.
pub open spec fn phase_two_count(total: int) -> int {
    if total <= TRACKS_LIMIT as int {
        0
    } else {
        chunk_count(total - TRACKS_LIMIT as int, TRACK_PAGE_LIMIT as int)
    }
}

/// The offset of second-phase request `i`: right after the bulk page,
/// one page further each request.
pub open spec fn phase_two_offset(i: int) -> int {
    TRACKS_LIMIT as int + TRACK_PAGE_LIMIT as int * i
}

/// The offsets of the second-phase requests for a parent with
/// `total_tracks` children: one per page, starting where the bulk page
/// ended, strictly below the total.
#[verifier::loop_isolation(false)]
pub fn remaining_track_offsets(total_tracks: usize) -> (offs: Vec<usize>)
    requires
        total_tracks <= usize::MAX - TRACK_PAGE_LIMIT,
    ensures
        offs@.len() == phase_two_count(total_tracks as int),
        forall|i: int| 0 <= i < offs@.len() ==> offs@[i] == phase_two_offset(i),
{
    let total = total_tracks;
    let mut offs: Vec<usize> = Vec::new();
    let mut offset: usize = TRACKS_LIMIT;
    while offset < total
        invariant
            offset == phase_two_offset(offs@.len() as int),
            offset <= total + TRACK_PAGE_LIMIT,
            forall|i: int| 0 <= i < offs@.len() ==> offs@[i] == phase_two_offset(i),
            total > TRACKS_LIMIT ==> offs@.len() == chunk_count(
                offset - TRACKS_LIMIT as int,
                TRACK_PAGE_LIMIT as int,
            ),
            offs@.len() > 0 ==> total > TRACKS_LIMIT,
            offs@.len() > 0 ==> (offset - TRACK_PAGE_LIMIT as int) < total,
        decreases total + TRACK_PAGE_LIMIT - offset,
    {
        offs.push(offset);
        proof {
            lemma_phase_two_window(offs@.len() as int - 1, offset as int, total as int);
        }
        offset = offset + TRACK_PAGE_LIMIT;
    }
    proof {
        if total > TRACKS_LIMIT {
            lemma_count_closes(offs@.len() as int, offset as int, total as int);
        }
    }
    offs
}

/// Pushing one more page extends the covered span by one page.
proof fn lemma_phase_two_window(k: int, offset: int, total: int)
    requires
        0 <= k,
        offset == phase_two_offset(k),
        offset < total,
        k == 0 || chunk_count(offset - TRACKS_LIMIT as int, TRACK_PAGE_LIMIT as int) == k,
    ensures
        chunk_count(offset + TRACK_PAGE_LIMIT as int - TRACKS_LIMIT as int,
            TRACK_PAGE_LIMIT as int) == k + 1,
{
    assert(offset - TRACKS_LIMIT as int == TRACK_PAGE_LIMIT as int * k) by (nonlinear_arith)
        requires offset == TRACKS_LIMIT as int + TRACK_PAGE_LIMIT as int * k;
    crate::batch::lemma_chunk_count_is_ceil(
        offset + TRACK_PAGE_LIMIT as int - TRACKS_LIMIT as int,
        TRACK_PAGE_LIMIT as int,
    );
    assert((TRACK_PAGE_LIMIT as int * k + TRACK_PAGE_LIMIT as int + TRACK_PAGE_LIMIT as int
        - 1) / (TRACK_PAGE_LIMIT as int) == k + 1) by (nonlinear_arith)
        requires k >= 0;
}

/// When the loop stops, the page count is the ceiling count for the
/// full remainder.
proof fn lemma_count_closes(k: int, offset: int, total: int)
    requires
        0 <= k,
        total > TRACKS_LIMIT as int,
        offset == phase_two_offset(k),
        offset >= total,
        k == 0 || chunk_count(offset - TRACKS_LIMIT as int, TRACK_PAGE_LIMIT as int) == k,
        k == 0 || (offset - TRACK_PAGE_LIMIT as int) < total,
    ensures
        k == phase_two_count(total),
{
    crate::batch::lemma_chunk_count_is_ceil(total - TRACKS_LIMIT as int, TRACK_PAGE_LIMIT as int);
    if k == 0 {
        assert(total <= TRACKS_LIMIT as int);
    } else {
        let n = total - TRACKS_LIMIT as int;
        assert(TRACK_PAGE_LIMIT as int * (k - 1) < n <= TRACK_PAGE_LIMIT as int * k)
            by (nonlinear_arith)
            requires
                offset == TRACKS_LIMIT as int + TRACK_PAGE_LIMIT as int * k,
                offset >= total,
                (offset - TRACK_PAGE_LIMIT as int) < total,
                n == total - TRACKS_LIMIT as int;
        assert((n + TRACK_PAGE_LIMIT as int - 1) / (TRACK_PAGE_LIMIT as int) == k)
            by (nonlinear_arith)
            requires
                TRACK_PAGE_LIMIT as int * (k - 1) < n <= TRACK_PAGE_LIMIT as int * k,
                k >= 1;
    }
}

/// Whether second-phase request at `off` fetches child index `k` of a
/// parent with `total` children: the request returns the children from
/// its offset up to one page further, clipped at the total.
pub open spec fn in_window(k: int, off: int, total: int) -> bool {
    off <= k < off + TRACK_PAGE_LIMIT as int && k < total
}

/// Two-phase coverage: for a parent reporting `total` children, more
/// than one bulk page holds, every child index below `total` is fetched
/// exactly once — indexes on the bulk page by the bulk phase and by no
/// second-phase request, every other index by exactly one second-phase
/// request.
pub proof fn lemma_two_phase_coverage(total: int, k: int)
    requires
        total > TRACKS_LIMIT as int,
        0 <= k < total,
    ensures
        k < TRACKS_LIMIT as int ==> forall|i: int|
            0 <= i < phase_two_count(total) ==> !in_window(k, phase_two_offset(i), total),
        k >= TRACKS_LIMIT as int ==> {
            let w = (k - TRACKS_LIMIT as int) / TRACK_PAGE_LIMIT as int;
            0 <= w < phase_two_count(total) && in_window(k, phase_two_offset(w), total)
                && forall|i: int|
                0 <= i < phase_two_count(total) && i != w ==> !in_window(
                    k,
                    phase_two_offset(i),
                    total,
                )
        },
{
    let lim = TRACK_PAGE_LIMIT as int;
    let bulk = TRACKS_LIMIT as int;
    crate::batch::lemma_chunk_count_is_ceil(total - bulk, lim);
    if k < bulk {
        assert forall|i: int| 0 <= i < phase_two_count(total)
            implies !in_window(k, phase_two_offset(i), total) by {
            assert(phase_two_offset(i) == bulk + lim * i);
            assert(lim * i >= 0) by (nonlinear_arith)
                requires i >= 0, lim >= 1;
        }
    } else {
        let w = (k - bulk) / lim;
        assert(lim * w <= k - bulk < lim * (w + 1)) by (nonlinear_arith)
            requires w == (k - bulk) / lim, k - bulk >= 0, lim >= 1;
        assert(in_window(k, phase_two_offset(w), total));
        assert(0 <= w);
        assert(w < phase_two_count(total)) by (nonlinear_arith)
            requires
                phase_two_count(total) == (total - bulk + lim - 1) / lim,
                lim * w <= k - bulk,
                k < total,
                lim >= 1,
                w >= 0;
        assert forall|i: int| 0 <= i < phase_two_count(total) && i != w
            implies !in_window(k, phase_two_offset(i), total) by {
            assert(phase_two_offset(i) == bulk + lim * i);
            assert(phase_two_offset(w) == bulk + lim * w);
            if i < w {
                assert(lim * i + lim <= lim * w) by (nonlinear_arith)
                    requires i < w, lim >= 1;
            } else {
                assert(lim * i >= lim * (w + 1)) by (nonlinear_arith)
                    requires i >= w + 1, lim >= 1;
                assert(lim * (w + 1) == lim * w + lim) by (nonlinear_arith);
            }
        }
    }
}

/// The items every successful group contributed, group by group, in
/// order; a failed group contributes nothing.
pub open spec fn ok_contents<T>(results: Seq<Result<Vec<T>, FetchError>>) -> Seq<T>
    decreases results.len(),
{
    if results.len() == 0 {
        Seq::empty()
    } else {
        ok_contents(results.drop_last()) + (match results.last() {
            Ok(v) => v@,
            Err(_) => Seq::empty(),
        })
    }
}

/// Merges per-group fetch outcomes: every successful group contributes
/// all its items, in group order, and a failed group is dropped without
/// keeping any other group from contributing.
#[verifier::loop_isolation(false)]
pub fn collect_group_results<T>(results: Vec<Result<Vec<T>, FetchError>>) -> (all: Vec<T>)
    ensures
        all@ == ok_contents(results@),
{
    let ghost orig = results@;
    let mut rest = results;
    let mut all: Vec<T> = Vec::new();
    let ghost mut done: int = 0;
    while rest.len() > 0
        invariant
            0 <= done <= orig.len(),
            done == orig.len() - rest@.len(),
            rest@ == orig.skip(done),
            all@ == ok_contents(orig.take(done)),
        decreases rest@.len(),
    {
        let ghost rprev = rest@;
        let r = rest.remove(0);
        proof {
            assert(rest@ =~= orig.skip(done + 1));
            assert(r == orig[done]);
            assert(orig.take(done + 1).drop_last() =~= orig.take(done));
            assert(orig.take(done + 1).last() == orig[done]);
        }
        match r {
            Ok(v) => {
                let mut v = v;
                all.append(&mut v);
            },
            Err(_) => {},
        }
        proof {
            done = done + 1;
        }
    }
    proof {
        assert(orig.take(orig.len() as int) =~= orig);
    }
    all
}

} // verus!
