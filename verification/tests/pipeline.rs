use crawl_core::lock::LockTable;
use crawl_core::ledger::ProcessedSet;
use crawl_core::orchestrator::{
    next_stage, resolve_attempt, run_claimed_task, AttemptOutcome, CrawlStores, Stage,
    StageEvent, TaskOutcome,
};
use crawl_core::queue::TaskQueue;
use crawl_core::fetch::FetchError;
use crawl_core::types::{Artist, Track};

fn track(id: &str, artists: &[(&str, &str)]) -> Track {
    Track {
        id: id.to_string(),
        name: id.to_string(),
        preview_url: None,
        artists: artists
            .iter()
            .map(|(aid, aname)| Artist { id: aid.to_string(), name: aname.to_string() })
            .collect(),
    }
}

#[test]
fn claim_on_an_empty_queue_returns_none() {
    let mut queue = TaskQueue::new();
    assert!(queue.dequeue_task().is_none());
}

#[test]
fn a_single_pending_task_is_claimed_at_most_once() {
    let mut queue = TaskQueue::new();
    queue.enqueue_tasks(&vec!["x".to_string()]);
    let first = queue.dequeue_task().expect("one task is pending");
    assert_eq!(first.artist_id, "x");
    assert_eq!(first.status, "pending");
    assert!(queue.dequeue_task().is_none());
}

#[test]
fn enqueueing_the_same_ids_twice_leaves_one_live_task_per_id() {
    let mut queue = TaskQueue::new();
    let ids = vec!["a".to_string(), "b".to_string()];
    queue.enqueue_tasks(&ids);
    queue.enqueue_tasks(&ids);
    let mut claimed = Vec::new();
    while let Some(t) = queue.dequeue_task() {
        claimed.push(t.artist_id);
    }
    claimed.sort();
    assert_eq!(claimed, vec!["a".to_string(), "b".to_string()]);
}

#[test]
fn enqueue_does_not_resurrect_a_claimed_task() {
    let mut queue = TaskQueue::new();
    queue.enqueue_tasks(&vec!["a".to_string()]);
    let claimed = queue.dequeue_task().expect("pending");
    assert_eq!(claimed.artist_id, "a");
    queue.enqueue_tasks(&vec!["a".to_string()]);
    assert!(queue.dequeue_task().is_none());
    assert!(queue.is_live(&"a".to_string()));
}

#[test]
fn completing_a_task_twice_is_harmless() {
    let mut queue = TaskQueue::new();
    queue.enqueue_tasks(&vec!["a".to_string()]);
    queue.complete_task(&"a".to_string());
    queue.complete_task(&"a".to_string());
    assert!(!queue.is_live(&"a".to_string()));
    assert!(queue.dequeue_task().is_none());
}

#[test]
fn requeueing_a_failed_task_makes_it_claimable_again() {
    let mut queue = TaskQueue::new();
    queue.enqueue_tasks(&vec!["a".to_string()]);
    let _ = queue.dequeue_task().expect("pending");
    assert!(queue.dequeue_task().is_none());
    queue.requeue_failed(&"a".to_string());
    let again = queue.dequeue_task().expect("requeued as pending");
    assert_eq!(again.artist_id, "a");
}

#[test]
fn a_second_acquire_within_the_ttl_fails_and_succeeds_after_expiry() {
    let mut locks = LockTable::new();
    let id = "x".to_string();
    assert!(locks.try_acquire(&id, 0, 30));
    assert!(!locks.try_acquire(&id, 10, 30));
    assert!(locks.try_acquire(&id, 30, 30));
}

#[test]
fn releasing_a_lock_frees_it_immediately() {
    let mut locks = LockTable::new();
    let id = "x".to_string();
    assert!(locks.try_acquire(&id, 0, 30));
    locks.release(&id);
    assert!(locks.try_acquire(&id, 1, 30));
}

#[test]
fn the_ledger_keeps_every_marked_id() {
    let mut ledger = ProcessedSet::new();
    let x = "x".to_string();
    assert!(!ledger.is_member(&x));
    ledger.mark(&x);
    ledger.mark(&x);
    assert!(ledger.is_member(&x));
    let ids = vec!["x".to_string(), "y".to_string()];
    assert_eq!(ledger.contains_any(&ids), vec!["x".to_string()]);
    assert_eq!(ledger.filter_unprocessed(&ids), vec!["y".to_string()]);
}

#[test]
fn seeding_one_artist_expands_to_its_collaborator() {
    let mut stores = CrawlStores::new();
    let x = "x".to_string();
    stores.queue.enqueue_tasks(&vec![x.clone()]);

    let claimed = stores.queue.dequeue_task().expect("the seed is pending");
    assert_eq!(claimed.artist_id, "x");

    let fetched = Ok(vec![
        track("t1", &[("x", "X"), ("y", "Y")]),
        track("t2", &[("x", "X"), ("y", "Y")]),
    ]);
    let outcome = run_claimed_task(&mut stores, &x, 0, 30, fetched);
    assert!(matches!(outcome, TaskOutcome::Completed));
    let resolved = resolve_attempt(&mut stores.queue, &x, false, 0);
    assert!(matches!(resolved, AttemptOutcome::Done));

    assert!(stores.ledger.is_member(&x));
    assert!(stores.artists.contains_artist(&"x".to_string()));
    assert!(stores.artists.contains_artist(&"y".to_string()));
    assert!(stores.tracks.contains_track(&"t1".to_string()));
    assert!(stores.tracks.contains_track(&"t2".to_string()));
    assert!(!stores.queue.is_live(&x));
    let next = stores.queue.dequeue_task().expect("the collaborator is pending");
    assert_eq!(next.artist_id, "y");
}

#[test]
fn a_processed_collaborator_is_not_enqueued_again() {
    let mut stores = CrawlStores::new();
    let x = "x".to_string();
    stores.ledger.mark(&"y".to_string());
    stores.queue.enqueue_tasks(&vec![x.clone()]);
    let _ = stores.queue.dequeue_task().expect("pending");
    let fetched = Ok(vec![track("t1", &[("x", "X"), ("y", "Y")])]);
    let outcome = run_claimed_task(&mut stores, &x, 0, 30, fetched);
    assert!(matches!(outcome, TaskOutcome::Completed));
    let _ = resolve_attempt(&mut stores.queue, &x, false, 0);
    assert!(!stores.queue.is_live(&"y".to_string()));
    assert!(!stores.queue.is_live(&x));
}

#[test]
fn a_busy_lock_turns_the_task_into_a_no_op_success() {
    let mut stores = CrawlStores::new();
    let x = "x".to_string();
    assert!(stores.locks.try_acquire(&x, 0, 30));
    stores.queue.enqueue_tasks(&vec![x.clone()]);
    let _ = stores.queue.dequeue_task().expect("pending");
    let fetched = Ok(vec![track("t1", &[("x", "X"), ("y", "Y")])]);
    let outcome = run_claimed_task(&mut stores, &x, 10, 30, fetched);
    assert!(matches!(outcome, TaskOutcome::AlreadyOwned));
    assert!(!stores.ledger.is_member(&x));
    assert!(!stores.tracks.contains_track(&"t1".to_string()));
    let resolved = resolve_attempt(&mut stores.queue, &x, false, 0);
    assert!(matches!(resolved, AttemptOutcome::Done));
    assert!(!stores.queue.is_live(&x));
}

#[test]
fn a_failed_fetch_leads_to_one_retry_then_a_requeue() {
    let mut stores = CrawlStores::new();
    let x = "x".to_string();
    stores.queue.enqueue_tasks(&vec![x.clone()]);
    let _ = stores.queue.dequeue_task().expect("pending");

    let failed = Err(FetchError { message: "rate limited".to_string() });
    let outcome = run_claimed_task(&mut stores, &x, 0, 30, failed);
    assert!(matches!(outcome, TaskOutcome::FetchFailed));
    let first = resolve_attempt(&mut stores.queue, &x, true, 0);
    assert!(matches!(first, AttemptOutcome::RetryWithFreshToken));

    let failed_again = Err(FetchError { message: "rate limited".to_string() });
    let outcome = run_claimed_task(&mut stores, &x, 40, 30, failed_again);
    assert!(matches!(outcome, TaskOutcome::FetchFailed));
    let second = resolve_attempt(&mut stores.queue, &x, true, 1);
    assert!(matches!(second, AttemptOutcome::Abandoned));

    let reclaimed = stores.queue.dequeue_task().expect("requeued as a fresh pending task");
    assert_eq!(reclaimed.artist_id, "x");
    assert_eq!(reclaimed.status, "pending");
}

#[test]
fn writing_the_same_entities_twice_changes_nothing_observable() {
    let mut stores = CrawlStores::new();
    let x = "x".to_string();
    let rows = || Ok(vec![track("t1", &[("x", "X"), ("y", "Y")])]);
    stores.queue.enqueue_tasks(&vec![x.clone()]);
    let _ = stores.queue.dequeue_task();
    let _ = run_claimed_task(&mut stores, &x, 0, 30, rows());
    let _ = resolve_attempt(&mut stores.queue, &x, false, 0);
    stores.locks.release(&x);
    stores.queue.enqueue_tasks(&vec![x.clone()]);
    let _ = stores.queue.dequeue_task();
    let _ = run_claimed_task(&mut stores, &x, 100, 30, rows());
    let _ = resolve_attempt(&mut stores.queue, &x, false, 0);
    assert!(stores.tracks.contains_track(&"t1".to_string()));
    assert!(stores.artists.contains_artist(&"x".to_string()));
    assert!(stores.artists.contains_artist(&"y".to_string()));
    assert!(stores.ledger.is_member(&x));
}

#[test]
fn the_stage_machine_walks_the_successful_path() {
    let mut s = Stage::Claimed;
    s = next_stage(s, StageEvent::LockAcquired);
    assert!(matches!(s, Stage::Locked));
    s = next_stage(s, StageEvent::FetchDone);
    assert!(matches!(s, Stage::Fetched));
    s = next_stage(s, StageEvent::WriteDone);
    assert!(matches!(s, Stage::Persisted));
    s = next_stage(s, StageEvent::FrontierEnqueued);
    assert!(matches!(s, Stage::Expanded));
    s = next_stage(s, StageEvent::Finalized);
    assert!(matches!(s, Stage::Completed));
}

#[test]
fn a_busy_lock_or_a_failure_short_circuits_the_stage_machine() {
    assert!(matches!(
        next_stage(Stage::Claimed, StageEvent::LockBusy),
        Stage::Completed
    ));
    assert!(matches!(
        next_stage(Stage::Fetched, StageEvent::StepFailed),
        Stage::Failed
    ));
    assert!(matches!(
        next_stage(Stage::Persisted, StageEvent::StepFailed),
        Stage::Failed
    ));
}
