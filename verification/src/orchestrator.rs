//! The per-task crawl pipeline and its retry policy.
//!
//! One task runs through claim, lock, fetch, persist, expand and
//! completion. The claim comes from the task queue; the lock keeps two
//! workers off the same seed; the fetched subgraph is normalized and
//! upserted; the co-credited artists not yet processed become new
//! pending tasks; then the seed is recorded as processed, its lock
//! released, and the task completed. The driving process performs the
//! network fetch and hands its outcome in as a value; everything the
//! pipeline decides and changes on the store models is verified here.

use vstd::prelude::*;
use crate::fetch::FetchError;
use crate::ledger::ProcessedSet;
use crate::ledger::strangers_among;
use crate::lock::LockTable;
use crate::lock::lease_live;
use crate::queue::TaskQueue;
use crate::queue::TaskState;
use crate::queue::enqueue_effect;
use crate::store::ArtistTable;
use crate::store::TrackTable;
use crate::store::upsert_effect;
use crate::types::Track;
use crate::types::artist_ids_of;
use crate::types::dedup_by_value;
use crate::types::multi_credit;
use crate::types::norm_tracks_of;
use crate::types::normalize_multi_credit_tracks;
use crate::types::artist_id_list;
use crate::types::track_artists;
use crate::types::track_views;
use crate::types::unique_artists;

verus! {

/// The stages one task passes through.
#[derive(Clone, Copy, Debug, PartialEq, Eq, Structural)]
pub enum Stage {
    Claimed,
    Locked,
    Fetched,
    Persisted,
    Expanded,
    Completed,
    Failed,
}

/// What happened at the current stage.
#[derive(Clone, Copy, Debug, PartialEq, Eq, Structural)]
pub enum StageEvent {
    LockAcquired,
    LockBusy,
    FetchDone,
    WriteDone,
    FrontierEnqueued,
    Finalized,
    StepFailed,
}

/// The stage transition relation: the successful path runs claim, lock,
/// fetch, persist, expand, complete; a busy lock short-circuits the
/// claimed task to completed as a no-op success, since another worker
/// owns the seed; a failure moves any stage to the failed branch; any
/// other pairing leaves the stage where it was.
pub open spec fn spec_next_stage(s: Stage, ev: StageEvent) -> Stage {
    match (s, ev) {
        (Stage::Claimed, StageEvent::LockAcquired) => Stage::Locked,
        (Stage::Claimed, StageEvent::LockBusy) => Stage::Completed,
        (Stage::Locked, StageEvent::FetchDone) => Stage::Fetched,
        (Stage::Fetched, StageEvent::WriteDone) => Stage::Persisted,
        (Stage::Persisted, StageEvent::FrontierEnqueued) => Stage::Expanded,
        (Stage::Expanded, StageEvent::Finalized) => Stage::Completed,
        (_, StageEvent::StepFailed) => Stage::Failed,
        (other, _) => other,
    }
}

/// Advances the pipeline stage on an event.
pub fn next_stage(s: Stage, ev: StageEvent) -> (n: Stage)
    ensures
        n == spec_next_stage(s, ev),
{
    match (s, ev) {
        (Stage::Claimed, StageEvent::LockAcquired) => Stage::Locked,
        (Stage::Claimed, StageEvent::LockBusy) => Stage::Completed,
        (Stage::Locked, StageEvent::FetchDone) => Stage::Fetched,
        (Stage::Fetched, StageEvent::WriteDone) => Stage::Persisted,
        (Stage::Persisted, StageEvent::FrontierEnqueued) => Stage::Expanded,
        (Stage::Expanded, StageEvent::Finalized) => Stage::Completed,
        (_, StageEvent::StepFailed) => Stage::Failed,
        (other, _) => other,
    }
}

/// How one task attempt ends at the caller.
#[derive(Clone, Copy, Debug, PartialEq, Eq, Structural)]
pub enum AttemptOutcome {
    Done,
    RetryWithFreshToken,
    Abandoned,
}

/// How one run of the pipeline body ends.
#[derive(Clone, Copy, Debug, PartialEq, Eq, Structural)]
pub enum TaskOutcome {
    Completed,
    AlreadyOwned,
    FetchFailed,
}

/// The shared stores one worker acts on.
pub struct CrawlStores {
    pub queue: TaskQueue,
    pub locks: LockTable,
    pub ledger: ProcessedSet,
    pub tracks: TrackTable,
    pub artists: ArtistTable,
}

impl CrawlStores {
    /// Whether every store representation is well formed.
    pub open spec fn wf(&self) -> bool {
        self.queue.wf() && self.locks.wf() && self.tracks.wf() && self.artists.wf()
    }

    /// Fresh, empty stores.
    pub fn new() -> (s: CrawlStores)
        ensures
            s.wf(),
            s.queue@ == Map::<Seq<char>, TaskState>::empty(),
            s.locks@ == Map::<Seq<char>, u64>::empty(),
            s.ledger@ == Set::<Seq<char>>::empty(),
    {
        CrawlStores {
            queue: TaskQueue::new(),
            locks: LockTable::new(),
            ledger: ProcessedSet::new(),
            tracks: TrackTable::new(),
            artists: ArtistTable::new(),
        }
    }
}

/// Runs the pipeline body for one claimed task with seed `seed` at
/// instant `now`, given the outcome the catalog fetch produced.
///
/// With the seed's lock already held elsewhere the call is a no-op
/// success: another worker owns the seed, nothing is touched, and the
/// caller completes the task without further work. With the lock
/// acquired and the fetch failed, only the lock has been taken; the
/// caller decides between retry and requeue. With the lock acquired and
/// the fetch delivered, the multi-credit tracks and the distinct
/// credited artists are upserted, the artists not yet processed are
/// enqueued as new pending tasks, the seed is recorded as processed and
/// its lock released; completing the task stays with the caller.
pub fn run_claimed_task(
    stores: &mut CrawlStores,
    seed: &String,
    now: u64,
    ttl: u64,
    fetched: Result<Vec<Track>, FetchError>,
) -> (oc: TaskOutcome)
    requires
        old(stores).wf(),
        now + ttl <= u64::MAX,
    ensures
        final(stores).wf(),
        lease_live(old(stores).locks@, seed@, now) ==> oc == TaskOutcome::AlreadyOwned
            && final(stores).locks@ == old(stores).locks@ && final(stores).queue@ == old(
            stores,
        ).queue@ && final(stores).ledger@ == old(stores).ledger@ && final(stores).tracks@ == old(
            stores,
        ).tracks@ && final(stores).artists@ == old(stores).artists@,
        !lease_live(old(stores).locks@, seed@, now) && fetched is Err ==> oc
            == TaskOutcome::FetchFailed && final(stores).locks@ == old(stores).locks@.insert(
            seed@,
            (now + ttl) as u64,
        ) && final(stores).queue@ == old(stores).queue@ && final(stores).ledger@ == old(
            stores,
        ).ledger@ && final(stores).tracks@ == old(stores).tracks@ && final(stores).artists@
            == old(stores).artists@,
        !lease_live(old(stores).locks@, seed@, now) ==> (fetched matches Ok(ts) ==> oc
            == TaskOutcome::Completed && final(stores).tracks@ == upsert_effect(
            old(stores).tracks@,
            norm_tracks_of(multi_credit(track_views(ts@))),
        ) && final(stores).artists@ == upsert_effect(
            old(stores).artists@,
            dedup_by_value(track_artists(track_views(ts@))),
        ) && final(stores).queue@ == enqueue_effect(
            old(stores).queue@,
            strangers_among(
                old(stores).ledger@,
                artist_ids_of(dedup_by_value(track_artists(track_views(ts@)))),
            ),
        ) && final(stores).ledger@ == old(stores).ledger@.insert(seed@) && final(stores).locks@
            == old(stores).locks@.remove(seed@)),
{
    let acquired = stores.locks.try_acquire(seed, now, ttl);
    if !acquired {
        return TaskOutcome::AlreadyOwned;
    }
    match fetched {
        Err(_) => TaskOutcome::FetchFailed,
        Ok(ts) => {
            let normalized_tracks = normalize_multi_credit_tracks(&ts);
            let credited_artists = unique_artists(&ts);
            let neighbor_ids = artist_id_list(&credited_artists);
            let frontier = stores.ledger.filter_unprocessed(&neighbor_ids);
            stores.tracks.upsert_tracks(normalized_tracks);
            stores.artists.upsert_artists(credited_artists);
            stores.queue.enqueue_tasks(&frontier);
            stores.ledger.mark(seed);
            stores.locks.release(seed);
            TaskOutcome::Completed
        },
    }
}

/// Resolves one finished attempt of a claimed task, as the worker's
/// retry policy prescribes: a successful attempt completes the task; the
/// first failure asks for one token refresh and an in-process retry of
/// the same task, touching nothing; a repeated failure abandons the
/// attempt and re-inserts the seed as a fresh pending task, leaving
/// recovery to whoever claims it next.
pub fn resolve_attempt(
    queue: &mut TaskQueue,
    seed: &String,
    attempt_failed: bool,
    retry_count: i32,
) -> (oc: AttemptOutcome)
    requires
        old(queue).wf(),
    ensures
        final(queue).wf(),
        !attempt_failed ==> oc == AttemptOutcome::Done && final(queue)@ == old(queue)@.remove(
            seed@,
        ),
        attempt_failed && retry_count == 0 ==> oc == AttemptOutcome::RetryWithFreshToken
            && final(queue)@ == old(queue)@,
        attempt_failed && retry_count != 0 ==> oc == AttemptOutcome::Abandoned && final(queue)@
            == old(queue)@.insert(seed@, TaskState::Pending),
{
    if !attempt_failed {
        queue.complete_task(seed);
        AttemptOutcome::Done
    } else if retry_count == 0 {
        AttemptOutcome::RetryWithFreshToken
    } else {
        queue.requeue_failed(seed);
        AttemptOutcome::Abandoned
    }
}

} // verus!
