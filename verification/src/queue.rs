//! Durable work-queue model with conditional claim semantics.
//!
//! The queue is keyed by entity id, one live row per id, each row either
//! pending or processing. Enqueue is insert-if-absent, so re-announcing a
//! live id changes nothing; claim picks some pending row and moves it to
//! processing with a compare-and-swap conditioned on the previous status;
//! completion deletes the row unconditionally. The model state is the
//! serialized view of the shared table: each operation here is one atomic
//! conditional write as the backing store applies it.

use vstd::prelude::*;

verus! {

/// Status of a live task row.
#[derive(Clone, Copy, Debug, PartialEq, Eq, Structural)]
pub enum TaskState {
    Pending,
    Processing,
}

/// A task row as stored: an entity id and a status string.
#[derive(Debug, Clone, PartialEq, Eq)]
pub struct ArtistTask {
    pub artist_id: String,
    pub status: String,
}

/// The state a status string encodes.
pub open spec fn status_state(s: Seq<char>) -> TaskState {
    if s == "processing"@ {
        TaskState::Processing
    } else {
        TaskState::Pending
    }
}

proof fn lemma_status_literals()
    ensures
        "pending"@ != "processing"@,
{
    reveal_strlit("pending");
    reveal_strlit("processing");
    assert("pending"@.len() == 7);
    assert("processing"@.len() == 10);
}

spec fn has_task(rows: Seq<ArtistTask>, id: Seq<char>) -> bool {
    exists|i: int| 0 <= i < rows.len() && rows[i].artist_id@ == id
}

spec fn task_index(rows: Seq<ArtistTask>, id: Seq<char>) -> int {
    choose|i: int| 0 <= i < rows.len() && rows[i].artist_id@ == id
}

spec fn map_of(rows: Seq<ArtistTask>) -> Map<Seq<char>, TaskState> {
    Map::new(
        |id: Seq<char>| has_task(rows, id),
        |id: Seq<char>| status_state(rows[task_index(rows, id)].status@),
    )
}

spec fn unique_ids(rows: Seq<ArtistTask>) -> bool {
    forall|i: int, j: int|
        0 <= i < j < rows.len() ==> rows[i].artist_id@ != rows[j].artist_id@
}

spec fn statuses_wf(rows: Seq<ArtistTask>) -> bool {
    forall|i: int|
        0 <= i < rows.len() ==> (#[trigger] rows[i]).status@ == "pending"@
            || rows[i].status@ == "processing"@
}

/// Whether some live task is still pending.
pub open spec fn has_pending(m: Map<Seq<char>, TaskState>) -> bool {
    exists|id: Seq<char>| #[trigger] m.dom().contains(id) && m[id] is Pending
}

/// Insert-if-absent of each id in order, as the store applies a bulk
/// enqueue: an id already live keeps its row and status.
pub open spec fn enqueue_effect(
    m: Map<Seq<char>, TaskState>,
    ids: Seq<Seq<char>>,
) -> Map<Seq<char>, TaskState>
    decreases ids.len(),
{
    if ids.len() == 0 {
        m
    } else {
        let m1 = if m.dom().contains(ids[0]) {
            m
        } else {
            m.insert(ids[0], TaskState::Pending)
        };
        enqueue_effect(m1, ids.drop_first())
    }
}

/// What one claim call may do: either nothing, when no row was pending,
/// or a compare-and-swap of exactly one pending row to processing, the
/// returned task carrying that row's id and its prior pending status.
pub open spec fn claim_step(
    pre: Map<Seq<char>, TaskState>,
    post: Map<Seq<char>, TaskState>,
    r: Option<ArtistTask>,
) -> bool {
    match r {
        None => post == pre && !has_pending(pre),
        Some(t) => pre.dom().contains(t.artist_id@) && pre[t.artist_id@] is Pending
            && t.status@ == "pending"@ && post == pre.insert(
            t.artist_id@,
            TaskState::Processing,
        ),
    }
}

/// The shared task table, one live row per entity id.
pub struct TaskQueue {
    tasks: Vec<ArtistTask>,
}

impl View for TaskQueue {
    type V = Map<Seq<char>, TaskState>;

    closed spec fn view(&self) -> Map<Seq<char>, TaskState> {
        map_of(self.tasks@)
    }
}

proof fn lemma_row_state(rows: Seq<ArtistTask>, i: int)
    requires
        unique_ids(rows),
        0 <= i < rows.len(),
    ensures
        map_of(rows).dom().contains(rows[i].artist_id@),
        map_of(rows)[rows[i].artist_id@] == status_state(rows[i].status@),
{
    assert(has_task(rows, rows[i].artist_id@));
    let j = task_index(rows, rows[i].artist_id@);
    assert(0 <= j < rows.len() && rows[j].artist_id@ == rows[i].artist_id@);
    assert(j == i);
}

proof fn lemma_fresh_row_view(rows: Seq<ArtistTask>, row: ArtistTask)
    requires
        unique_ids(rows),
        !has_task(rows, row.artist_id@),
    ensures
        unique_ids(rows.push(row)),
        map_of(rows.push(row)) == map_of(rows).insert(
            row.artist_id@,
            status_state(row.status@),
        ),
{
    let rows2 = rows.push(row);
    assert forall|i: int, j: int| 0 <= i < j < rows2.len()
        implies rows2[i].artist_id@ != rows2[j].artist_id@ by {
        if j < rows.len() {
        } else {
            assert(rows2[j] == row);
            assert(rows2[i] == rows[i]);
            assert(rows[i].artist_id@ != row.artist_id@);
        }
    }
    assert forall|x: Seq<char>| #[trigger] map_of(rows2).dom().contains(x)
        implies map_of(rows).insert(row.artist_id@, status_state(row.status@)).dom().contains(
        x,
    ) by {
        let i = task_index(rows2, x);
        if i < rows.len() {
            assert(rows[i].artist_id@ == x);
            assert(has_task(rows, x));
        } else {
            assert(rows2[i] == row);
        }
    }
    assert forall|x: Seq<char>|
        #[trigger] map_of(rows).insert(row.artist_id@, status_state(row.status@)).dom().contains(
            x,
        ) implies map_of(rows2).dom().contains(x) by {
        if x == row.artist_id@ {
            assert(rows2[rows.len() as int].artist_id@ == x);
            assert(has_task(rows2, x));
        } else {
            let i = task_index(rows, x);
            assert(rows2[i].artist_id@ == x);
            assert(has_task(rows2, x));
        }
    }
    assert forall|x: Seq<char>| #[trigger] map_of(rows2).dom().contains(x)
        implies map_of(rows2)[x] == map_of(rows).insert(
        row.artist_id@,
        status_state(row.status@),
    )[x] by {
        let i = task_index(rows2, x);
        assert(0 <= i < rows2.len() && rows2[i].artist_id@ == x);
        if x == row.artist_id@ {
            if i < rows.len() {
                assert(has_task(rows, x));
            }
            assert(i == rows.len());
            assert(rows2[i] == row);
        } else {
            assert(i < rows.len());
            assert(has_task(rows, x));
            let j = task_index(rows, x);
            assert(0 <= j < rows.len() && rows[j].artist_id@ == x);
            assert(j == i);
        }
    }
    assert(map_of(rows2) =~= map_of(rows).insert(row.artist_id@, status_state(row.status@)));
}

proof fn lemma_update_row_view(rows: Seq<ArtistTask>, i: int, row: ArtistTask)
    requires
        unique_ids(rows),
        0 <= i < rows.len(),
        row.artist_id@ == rows[i].artist_id@,
    ensures
        unique_ids(rows.update(i, row)),
        map_of(rows.update(i, row)) == map_of(rows).insert(
            row.artist_id@,
            status_state(row.status@),
        ),
{
    let rows2 = rows.update(i, row);
    assert forall|p: int, q: int| 0 <= p < q < rows2.len()
        implies rows2[p].artist_id@ != rows2[q].artist_id@ by {
        assert(rows2[p].artist_id@ == rows[p].artist_id@);
        assert(rows2[q].artist_id@ == rows[q].artist_id@);
    }
    assert forall|x: Seq<char>| has_task(rows2, x) == has_task(rows, x) by {
        if has_task(rows2, x) {
            let p = task_index(rows2, x);
            assert(rows2[p].artist_id@ == rows[p].artist_id@);
            assert(has_task(rows, x));
        }
        if has_task(rows, x) {
            let p = task_index(rows, x);
            assert(rows2[p].artist_id@ == rows[p].artist_id@);
            assert(has_task(rows2, x));
        }
    }
    assert forall|x: Seq<char>| #[trigger] map_of(rows2).dom().contains(x)
        implies map_of(rows2)[x] == map_of(rows).insert(
        row.artist_id@,
        status_state(row.status@),
    )[x] by {
        let p = task_index(rows2, x);
        assert(0 <= p < rows2.len() && rows2[p].artist_id@ == x);
        if x == row.artist_id@ {
            assert(p == i);
            assert(rows2[p] == row);
        } else {
            assert(p != i);
            assert(rows2[p] == rows[p]);
            let q = task_index(rows, x);
            assert(0 <= q < rows.len() && rows[q].artist_id@ == x);
            assert(q == p);
        }
    }
    assert(map_of(rows2) =~= map_of(rows).insert(row.artist_id@, status_state(row.status@)));
}

proof fn lemma_remove_row_view(rows: Seq<ArtistTask>, i: int)
    requires
        unique_ids(rows),
        0 <= i < rows.len(),
    ensures
        unique_ids(rows.remove(i)),
        map_of(rows.remove(i)) == map_of(rows).remove(rows[i].artist_id@),
{
    let rows2 = rows.remove(i);
    assert forall|p: int, q: int| 0 <= p < q < rows2.len()
        implies rows2[p].artist_id@ != rows2[q].artist_id@ by {
        let p0: int = if p < i { p } else { p + 1 };
        let q0: int = if q < i { q } else { q + 1 };
        assert(rows2[p] == rows[p0]);
        assert(rows2[q] == rows[q0]);
    }
    assert forall|x: Seq<char>| #[trigger] map_of(rows2).dom().contains(x)
        implies map_of(rows).remove(rows[i].artist_id@).dom().contains(x) by {
        let p = task_index(rows2, x);
        let p0: int = if p < i { p } else { p + 1 };
        assert(rows2[p] == rows[p0]);
        assert(has_task(rows, x));
        assert(p0 != i);
        assert(x != rows[i].artist_id@);
    }
    assert forall|x: Seq<char>|
        #[trigger] map_of(rows).remove(rows[i].artist_id@).dom().contains(x)
        implies map_of(rows2).dom().contains(x) by {
        let p = task_index(rows, x);
        assert(0 <= p < rows.len() && rows[p].artist_id@ == x);
        assert(p != i);
        let p2: int = if p < i { p } else { p - 1 };
        assert(rows2[p2] == rows[p]);
        assert(has_task(rows2, x));
    }
    assert forall|x: Seq<char>| #[trigger] map_of(rows2).dom().contains(x)
        implies map_of(rows2)[x] == map_of(rows).remove(rows[i].artist_id@)[x] by {
        let p = task_index(rows2, x);
        assert(0 <= p < rows2.len() && rows2[p].artist_id@ == x);
        let p0: int = if p < i { p } else { p + 1 };
        assert(rows2[p] == rows[p0]);
        assert(has_task(rows, x));
        let q = task_index(rows, x);
        assert(0 <= q < rows.len() && rows[q].artist_id@ == x);
        assert(q == p0);
    }
    assert(map_of(rows2) =~= map_of(rows).remove(rows[i].artist_id@));
}

impl TaskQueue {
    /// Whether the table representation is well formed: one live row per
    /// id, every status one of the two live statuses.
    pub closed spec fn wf(&self) -> bool {
        unique_ids(self.tasks@) && statuses_wf(self.tasks@)
    }

    /// An empty task table.
    pub fn new() -> (q: TaskQueue)
        ensures
            q.wf(),
            q@ == Map::<Seq<char>, TaskState>::empty(),
    {
        let q = TaskQueue { tasks: Vec::new() };
        proof {
            assert forall|x: Seq<char>| !(#[trigger] map_of(q.tasks@).dom().contains(x)) by {
                if has_task(q.tasks@, x) {
                    let i = task_index(q.tasks@, x);
                }
            }
            assert(map_of(q.tasks@) =~= Map::<Seq<char>, TaskState>::empty());
        }
        q
    }

    /// Whether a live row exists for `id`.
    #[verifier::loop_isolation(false)]
    pub fn is_live(&self, id: &String) -> (b: bool)
        requires
            self.wf(),
        ensures
            b == self@.dom().contains(id@),
    {
        let mut i: usize = 0;
        let mut found = false;
        while i < self.tasks.len()
            invariant
                i <= self.tasks@.len(),
                found == (exists|p: int|
                    0 <= p < i && (#[trigger] self.tasks@[p]).artist_id@ == id@),
            decreases self.tasks@.len() - i,
        {
            if self.tasks[i].artist_id == *id {
                found = true;
                assert(self.tasks@[i as int].artist_id@ == id@);
            }
            i = i + 1;
        }
        proof {
            if found {
                let p = choose|p: int|
                    0 <= p < self.tasks@.len() && (#[trigger] self.tasks@[p]).artist_id@ == id@;
                lemma_row_state(self.tasks@, p);
            } else {
                if has_task(self.tasks@, id@) {
                    let p = task_index(self.tasks@, id@);
                }
            }
        }
        found
    }

    /// Idempotent bulk enqueue: every id not yet live gains a fresh
    /// pending row; ids already live, pending or processing, are
    /// unaffected.
    #[verifier::loop_isolation(false)]
    pub fn enqueue_tasks(&mut self, ids: &Vec<String>)
        requires
            old(self).wf(),
        ensures
            final(self).wf(),
            final(self)@ == enqueue_effect(old(self)@, crate::types::string_views(ids@)),
    {
        let ghost idv = crate::types::string_views(ids@);
        proof {
            assert(idv.skip(0) =~= idv);
        }
        let mut k: usize = 0;
        while k < ids.len()
            invariant
                k <= ids@.len(),
                idv == crate::types::string_views(ids@),
                self.wf(),
                enqueue_effect(old(self)@, idv) == enqueue_effect(self@, idv.skip(k as int)),
            decreases ids@.len() - k,
        {
            let id = &ids[k];
            let ghost pre = self@;
            let live = self.is_live(id);
            if !live {
                let row = ArtistTask { artist_id: id.clone(), status: "pending".to_owned() };
                proof {
                    if has_task(self.tasks@, row.artist_id@) {
                        let p = task_index(self.tasks@, row.artist_id@);
                        lemma_row_state(self.tasks@, p);
                    }
                    lemma_fresh_row_view(self.tasks@, row);
                    lemma_status_literals();
                    assert(status_state(row.status@) == TaskState::Pending);
                }
                self.tasks.push(row);
            }
            proof {
                assert(idv.skip(k as int)[0] == id@);
                assert(idv.skip(k as int).drop_first() =~= idv.skip(k + 1));
                if pre.dom().contains(id@) {
                    assert(self@ == pre);
                    assert(enqueue_effect(pre, idv.skip(k as int)) == enqueue_effect(
                        self@,
                        idv.skip(k + 1),
                    ));
                } else {
                    assert(self@ == pre.insert(id@, TaskState::Pending));
                    assert(enqueue_effect(pre, idv.skip(k as int)) == enqueue_effect(
                        self@,
                        idv.skip(k + 1),
                    ));
                }
            }
            k = k + 1;
        }
        proof {
            assert(idv.skip(idv.len() as int).len() == 0);
        }
    }

    /// Claims some pending task: the chosen row moves from pending to
    /// processing under a compare-and-swap on its prior status, and the
    /// row as it stood is returned; with nothing pending the table is
    /// untouched and the call reports `None` without error.
    #[verifier::loop_isolation(false)]
    pub fn dequeue_task(&mut self) -> (r: Option<ArtistTask>)
        requires
            old(self).wf(),
        ensures
            final(self).wf(),
            claim_step(old(self)@, final(self)@, r),
            r is Some <==> has_pending(old(self)@),
    {
        proof {
            lemma_status_literals();
        }
        let mut i: usize = 0;
        while i < self.tasks.len()
            invariant
                i <= self.tasks@.len(),
                self == old(self),
                forall|p: int|
                    0 <= p < i ==> (#[trigger] self.tasks@[p]).status@ != "pending"@,
            decreases self.tasks@.len() - i,
        {
            if self.tasks[i].status == "pending".to_owned() {
                let ghost rows = self.tasks@;
                let claimed = ArtistTask {
                    artist_id: self.tasks[i].artist_id.clone(),
                    status: "pending".to_owned(),
                };
                let row = ArtistTask {
                    artist_id: self.tasks[i].artist_id.clone(),
                    status: "processing".to_owned(),
                };
                proof {
                    lemma_status_literals();
                    lemma_row_state(rows, i as int);
                    assert(rows[i as int].status@ == "pending"@);
                    assert(status_state(rows[i as int].status@) == TaskState::Pending);
                    lemma_update_row_view(rows, i as int, row);
                    assert(status_state(row.status@) == TaskState::Processing);
                }
                self.tasks.set(i, row);
                proof {
                    assert(has_pending(old(self)@));
                }
                return Some(claimed);
            }
            i = i + 1;
        }
        proof {
            if has_pending(self@) {
                let x = choose|id: Seq<char>| #[trigger] self@.dom().contains(id)
                    && self@[id] is Pending;
                let p = task_index(self.tasks@, x);
                assert(0 <= p < self.tasks@.len() && self.tasks@[p].artist_id@ == x);
                lemma_row_state(self.tasks@, p);
                assert(status_state(self.tasks@[p].status@) is Pending);
                assert(self.tasks@[p].status@ == "pending"@);
            }
        }
        None
    }

    /// Unconditional completion: the live row for `id`, in whatever
    /// status, is deleted; with no such row nothing changes, so a second
    /// call is harmless.
    #[verifier::loop_isolation(false)]
    pub fn complete_task(&mut self, id: &String)
        requires
            old(self).wf(),
        ensures
            final(self).wf(),
            final(self)@ == old(self)@.remove(id@),
    {
        let mut i: usize = 0;
        while i < self.tasks.len()
            invariant
                i <= self.tasks@.len(),
                self == old(self),
                forall|p: int|
                    0 <= p < i ==> (#[trigger] self.tasks@[p]).artist_id@ != id@,
            decreases self.tasks@.len() - i,
        {
            if self.tasks[i].artist_id == *id {
                proof {
                    lemma_remove_row_view(self.tasks@, i as int);
                }
                self.tasks.remove(i);
                return ;
            }
            i = i + 1;
        }
        proof {
            if has_task(self.tasks@, id@) {
                let p = task_index(self.tasks@, id@);
            }
            assert(!self@.dom().contains(id@));
            assert(self@ =~= self@.remove(id@));
        }
    }

    /// Re-inserts `id` as a fresh pending row after a failed attempt:
    /// whatever row the id had is replaced, so the task becomes ready to
    /// claim again.
    #[verifier::loop_isolation(false)]
    pub fn requeue_failed(&mut self, id: &String)
        requires
            old(self).wf(),
        ensures
            final(self).wf(),
            final(self)@ == old(self)@.insert(id@, TaskState::Pending),
    {
        proof {
            lemma_status_literals();
        }
        let mut i: usize = 0;
        while i < self.tasks.len()
            invariant
                i <= self.tasks@.len(),
                self == old(self),
                forall|p: int|
                    0 <= p < i ==> (#[trigger] self.tasks@[p]).artist_id@ != id@,
            decreases self.tasks@.len() - i,
        {
            if self.tasks[i].artist_id == *id {
                let row = ArtistTask { artist_id: id.clone(), status: "pending".to_owned() };
                proof {
                    lemma_status_literals();
                    lemma_update_row_view(self.tasks@, i as int, row);
                    assert(status_state(row.status@) == TaskState::Pending);
                }
                self.tasks.set(i, row);
                return ;
            }
            i = i + 1;
        }
        let row = ArtistTask { artist_id: id.clone(), status: "pending".to_owned() };
        proof {
            if has_task(self.tasks@, row.artist_id@) {
                let p = task_index(self.tasks@, row.artist_id@);
            }
            lemma_status_literals();
            lemma_fresh_row_view(self.tasks@, row);
            assert(status_state(row.status@) == TaskState::Pending);
        }
        self.tasks.push(row);
    }
}

/// Enqueueing ids that are all already live changes nothing.
proof fn lemma_enqueue_absorbed(m: Map<Seq<char>, TaskState>, ids: Seq<Seq<char>>)
    requires
        forall|i: int| 0 <= i < ids.len() ==> m.dom().contains(#[trigger] ids[i]),
    ensures
        enqueue_effect(m, ids) == m,
    decreases ids.len(),
{
    if ids.len() > 0 {
        assert(m.dom().contains(ids[0]));
        assert forall|i: int| 0 <= i < ids.drop_first().len()
            implies m.dom().contains(#[trigger] ids.drop_first()[i]) by {
            assert(ids.drop_first()[i] == ids[i + 1]);
        }
        lemma_enqueue_absorbed(m, ids.drop_first());
        assert(enqueue_effect(m, ids) == enqueue_effect(m, ids.drop_first()));
    }
}

/// After an enqueue, every announced id is live, and ids live before
/// keep exactly the status they had.
pub proof fn lemma_enqueue_dom(m: Map<Seq<char>, TaskState>, ids: Seq<Seq<char>>)
    ensures
        forall|i: int|
            0 <= i < ids.len() ==> enqueue_effect(m, ids).dom().contains(#[trigger] ids[i]),
        forall|x: Seq<char>| #[trigger] m.dom().contains(x)
            ==> enqueue_effect(m, ids).dom().contains(x) && enqueue_effect(m, ids)[x] == m[x],
        forall|x: Seq<char>| #[trigger] enqueue_effect(m, ids).dom().contains(x)
            ==> m.dom().contains(x) || ids.contains(x),
        forall|x: Seq<char>| #[trigger] enqueue_effect(m, ids).dom().contains(x)
            && !m.dom().contains(x) ==> enqueue_effect(m, ids)[x] is Pending,
    decreases ids.len(),
{
    if ids.len() > 0 {
        let m1 = if m.dom().contains(ids[0]) {
            m
        } else {
            m.insert(ids[0], TaskState::Pending)
        };
        lemma_enqueue_dom(m1, ids.drop_first());
        assert forall|i: int| 0 <= i < ids.len()
            implies enqueue_effect(m, ids).dom().contains(#[trigger] ids[i]) by {
            if i == 0 {
                assert(m1.dom().contains(ids[0]));
            } else {
                assert(ids.drop_first()[i - 1] == ids[i]);
            }
        }
        assert forall|x: Seq<char>| #[trigger] enqueue_effect(m, ids).dom().contains(x)
            implies m.dom().contains(x) || ids.contains(x) by {
            if !m.dom().contains(x) && !m1.dom().contains(x) {
                assert(ids.drop_first().contains(x));
                let i = choose|i: int|
                    0 <= i < ids.drop_first().len() && ids.drop_first()[i] == x;
                assert(ids[i + 1] == x);
            } else if !m.dom().contains(x) {
                assert(x == ids[0]);
                assert(ids[0] == x);
            }
        }
        assert forall|x: Seq<char>| #[trigger] m.dom().contains(x)
            implies enqueue_effect(m, ids).dom().contains(x)
            && enqueue_effect(m, ids)[x] == m[x] by {
            assert(m1.dom().contains(x));
            assert(m1[x] == m[x]);
        }
        assert forall|x: Seq<char>|
            #[trigger] enqueue_effect(m, ids).dom().contains(x) && !m.dom().contains(x)
            implies enqueue_effect(m, ids)[x] is Pending by {
            if m1.dom().contains(x) {
                assert(x == ids[0]);
                assert(m1[x] is Pending);
                assert(enqueue_effect(m1, ids.drop_first())[x] == m1[x]);
            } else {
                assert(enqueue_effect(m1, ids.drop_first())[x] is Pending);
            }
        }
    }
}

/// Announcing the same id set twice leaves exactly the state one
/// announcement leaves: every id has one live task row, and rows that
/// were already live, in whatever status, are untouched.
pub proof fn lemma_enqueue_idempotent(m: Map<Seq<char>, TaskState>, ids: Seq<Seq<char>>)
    ensures
        enqueue_effect(enqueue_effect(m, ids), ids) == enqueue_effect(m, ids),
{
    lemma_enqueue_dom(m, ids);
    lemma_enqueue_absorbed(enqueue_effect(m, ids), ids);
}

/// Against a queue holding exactly one pending task, two claims resolve
/// that task at most once: when the first claim takes it, the second
/// sees nothing pending and comes back empty-handed.
pub proof fn lemma_single_pending_claimed_once(
    m0: Map<Seq<char>, TaskState>,
    m1: Map<Seq<char>, TaskState>,
    m2: Map<Seq<char>, TaskState>,
    r1: Option<ArtistTask>,
    r2: Option<ArtistTask>,
    p: Seq<char>,
)
    requires
        m0.dom().contains(p),
        m0[p] is Pending,
        forall|id: Seq<char>| #[trigger] m0.dom().contains(id) && m0[id] is Pending
            ==> id == p,
        claim_step(m0, m1, r1),
        claim_step(m1, m2, r2),
    ensures
        !(r1 is Some && r2 is Some),
        r1 is Some,
{
    assert(has_pending(m0));
    let t1 = r1->Some_0;
    assert(t1.artist_id@ == p);
    if r2 is Some {
        let t2 = r2->Some_0;
        assert(m1[t2.artist_id@] is Pending);
        assert(m1 == m0.insert(p, TaskState::Processing));
        if t2.artist_id@ == p {
            assert(m1[p] is Processing);
        } else {
            assert(m0.dom().contains(t2.artist_id@));
            assert(m0[t2.artist_id@] is Pending);
        }
    }
}

} // verus!
