//! The task store engine: task records, unique id allocation, and the
//! in-memory operations. Every mutation keeps the store well formed
//! (`wf`): ids are unique, positive, and strictly below `next_id`, so a
//! freshly allocated id can never collide with a live task.

use vstd::prelude::*;

verus! {

/// Lifecycle state of a task.
#[derive(Debug, Clone, Copy, PartialEq, Eq, Structural)]
pub enum TaskStatus {
    Todo,
    InProgress,
    Done,
}

/// Urgency of a task, totally ordered `Low < Medium < High`.
#[derive(Debug, Clone, Copy, PartialEq, Eq, Structural, PartialOrd, Ord)]
pub enum TaskPriority {
    Low,
    Medium,
    High,
}

/// The position of a priority in the order `Low < Medium < High`.
pub open spec fn spec_priority_rank(p: TaskPriority) -> int {
    match p {
        TaskPriority::Low => 0,
        TaskPriority::Medium => 1,
        TaskPriority::High => 2,
    }
}

/// Executable counterpart of [`spec_priority_rank`].
pub fn priority_rank(p: TaskPriority) -> (r: u8)
    ensures
        r as int == spec_priority_rank(p),
{
    match p {
        TaskPriority::Low => 0,
        TaskPriority::Medium => 1,
        TaskPriority::High => 2,
    }
}

/// One trackable unit of work.
#[derive(Debug)]
pub struct Task {
    pub id: u32,
    pub title: String,
    pub description: String,
    pub status: TaskStatus,
    pub created_at: String,
    pub priority: TaskPriority,
}

impl Clone for Task {
    fn clone(&self) -> (r: Self)
        ensures
            r == *self,
    {
        Task {
            id: self.id,
            title: self.title.clone(),
            description: self.description.clone(),
            status: self.status,
            created_at: self.created_at.clone(),
            priority: self.priority,
        }
    }
}

/// True when `ts` holds a task with the given id.
pub open spec fn contains_id(ts: Seq<Task>, id: u32) -> bool {
    exists|k: int| 0 <= k < ts.len() && ts[k].id == id
}

/// Two tasks that agree on everything observable: the id, both enum
/// fields, and the text of the three string fields.
pub open spec fn task_content_eq(a: Task, b: Task) -> bool {
    &&& a.id == b.id
    &&& a.title@ == b.title@
    &&& a.description@ == b.description@
    &&& a.status == b.status
    &&& a.created_at@ == b.created_at@
    &&& a.priority == b.priority
}

/// The largest id among `ts`, or `0` when there is none.
pub open spec fn spec_max_id(ts: Seq<Task>) -> nat
    decreases ts.len(),
{
    if ts.len() == 0 {
        0
    } else if ts.last().id as nat > spec_max_id(ts.drop_last()) {
        ts.last().id as nat
    } else {
        spec_max_id(ts.drop_last())
    }
}

/// The in-memory transition a successful creation makes: the returned id
/// is the pre-state's counter, the counter advances by exactly one, and
/// the one new task — carrying that id, with status `Todo` — is appended.
pub open spec fn spec_create(pre: TaskManager, post: TaskManager, id: u32) -> bool {
    &&& id == pre.spec_next_id()
    &&& post.spec_next_id() == pre.spec_next_id() + 1
    &&& exists|t: Task|
        t.id == id && t.status == TaskStatus::Todo && post.tasks_seq() == pre.tasks_seq().push(t)
    &&& post.spec_file_path() == pre.spec_file_path()
}

/// Why a store operation could not be carried through: the persisted text
/// was not a well-formed snapshot, or the surrounding shell could not read
/// or write the backing file.
#[derive(Debug, Clone, Copy, PartialEq, Eq, Structural)]
pub enum StoreError {
    Corrupt,
    Persistence,
}

/// The in-memory task collection together with the id-allocation counter
/// and the path its snapshots are meant for.
pub struct TaskManager {
    tasks: Vec<Task>,
    next_id: u32,
    file_path: String,
}

impl TaskManager {
    /// The stored tasks, in insertion order.
    pub closed spec fn tasks_seq(&self) -> Seq<Task> {
        self.tasks@
    }

    /// The id the next successful creation will assign.
    pub closed spec fn spec_next_id(&self) -> u32 {
        self.next_id
    }

    /// The path the store's snapshots are meant to be written to.
    pub closed spec fn spec_file_path(&self) -> Seq<char> {
        self.file_path@
    }

    /// Well-formedness: ids are unique, positive, and below `next_id`.
    pub open spec fn wf(&self) -> bool {
        &&& forall|i: int, j: int|
            0 <= i < j < self.tasks_seq().len() ==> self.tasks_seq()[i].id != self.tasks_seq()[j].id
        &&& forall|i: int|
            0 <= i < self.tasks_seq().len() ==> 1 <= #[trigger] self.tasks_seq()[i].id
                < self.spec_next_id()
        &&& self.spec_next_id() >= 1
    }

    /// A fresh, empty store bound to `file_path`; nothing is read from disk.
    pub fn new(file_path: &str) -> (r: Self)
        ensures
            r.wf(),
            r.tasks_seq() == Seq::<Task>::empty(),
            r.spec_next_id() == 1,
            r.spec_file_path() == file_path@,
    {
        TaskManager { tasks: Vec::new(), next_id: 1, file_path: file_path.to_owned() }
    }

    /// The backing file path this store was constructed with.
    pub fn file_path(&self) -> (r: &str)
        ensures
            r@ == self.spec_file_path(),
    {
        self.file_path.as_str()
    }

    /// Whether another id can still be allocated; creation demands this.
    pub fn can_allocate(&self) -> (r: bool)
        ensures
            r == (self.spec_next_id() < u32::MAX),
    {
        self.next_id < u32::MAX
    }

    /// The number of stored tasks.
    pub fn len(&self) -> (r: usize)
        ensures
            r == self.tasks_seq().len(),
    {
        self.tasks.len()
    }

    /// The task with the given id, if any.
    pub fn get_task(&self, id: u32) -> (r: Option<&Task>)
        requires
            self.wf(),
        ensures
            match r {
                Some(t) => contains_id(self.tasks_seq(), id) && exists|k: int|
                    0 <= k < self.tasks_seq().len() && self.tasks_seq()[k].id == id && *t
                        == self.tasks_seq()[k],
                None => !contains_id(self.tasks_seq(), id),
            },
    {
        let n = self.tasks.len();
        for i in 0..n
            invariant
                self.wf(),
                n == self.tasks.len(),
                forall|k: int| 0 <= k < i ==> self.tasks@[k].id != id,
        {
            if self.tasks[i].id == id {
                return Some(&self.tasks[i]);
            }
        }
        None
    }

    /// Inserts a new task with the given creation timestamp, allocating the
    /// next id; the status of a fresh task is always `Todo`. Mutates memory
    /// only; callers persist via [`Self::to_json`].
    pub fn add_task_with_timestamp(
        &mut self,
        title: String,
        description: String,
        priority: TaskPriority,
        created_at: String,
    ) -> (r: u32)
        requires
            old(self).wf(),
            old(self).spec_next_id() < u32::MAX,
        ensures
            final(self).wf(),
            r == old(self).spec_next_id(),
            !contains_id(old(self).tasks_seq(), r),
            final(self).spec_next_id() == old(self).spec_next_id() + 1,
            final(self).tasks_seq() == old(self).tasks_seq().push(
                Task { id: r, title, description, status: TaskStatus::Todo, created_at, priority },
            ),
            final(self).spec_file_path() == old(self).spec_file_path(),
            spec_create(*old(self), *final(self), r),
    {
        let id = self.next_id;
        let task = Task {
            id,
            title,
            description,
            status: TaskStatus::Todo,
            created_at,
            priority,
        };
        self.tasks.push(task);
        self.next_id = self.next_id + 1;
        id
    }

    /// Inserts a new task stamped with the current local time, allocating
    /// the next id. Apart from the clock-dependent `created_at` field the
    /// effect is exactly that of [`Self::add_task_with_timestamp`].
    pub fn add_task(&mut self, title: String, description: String, priority: TaskPriority) -> (r:
        u32)
        requires
            old(self).wf(),
            old(self).spec_next_id() < u32::MAX,
        ensures
            final(self).wf(),
            r == old(self).spec_next_id(),
            !contains_id(old(self).tasks_seq(), r),
            final(self).spec_next_id() == old(self).spec_next_id() + 1,
            exists|stamp: String|
                stamp@.len() > 0 && final(self).tasks_seq() == old(self).tasks_seq().push(
                    Task {
                        id: r,
                        title,
                        description,
                        status: TaskStatus::Todo,
                        created_at: stamp,
                        priority,
                    },
                ),
            final(self).spec_file_path() == old(self).spec_file_path(),
            spec_create(*old(self), *final(self), r),
    {
        let stamp = crate::clock::now_timestamp();
        let ghost witness = stamp;
        let id = self.add_task_with_timestamp(title, description, priority, stamp);
        proof {
            assert(self.tasks@ == old(self).tasks_seq().push(
                Task {
                    id,
                    title,
                    description,
                    status: TaskStatus::Todo,
                    created_at: witness,
                    priority,
                },
            ));
        }
        id
    }

    /// Removes the task with the given id; `false` (and no change) when the
    /// id is absent. Mutates memory only.
    pub fn delete_task(&mut self, id: u32) -> (r: bool)
        requires
            old(self).wf(),
        ensures
            final(self).wf(),
            r == contains_id(old(self).tasks_seq(), id),
            !r ==> final(self).tasks_seq() == old(self).tasks_seq(),
            r ==> exists|k: int|
                0 <= k < old(self).tasks_seq().len() && old(self).tasks_seq()[k].id == id && final(self).tasks_seq() == old(self).tasks_seq().remove(k),
            final(self).spec_next_id() == old(self).spec_next_id(),
            final(self).spec_file_path() == old(self).spec_file_path(),
    {
        let n = self.tasks.len();
        for i in 0..n
            invariant
                old(self).wf(),
                n == self.tasks.len(),
                *self == *old(self),
                forall|k: int| 0 <= k < i ==> self.tasks@[k].id != id,
        {
            if self.tasks[i].id == id {
                let ghost prior = self.tasks@;
                self.tasks.remove(i);
                proof {
                    assert(prior == old(self).tasks_seq());
                    assert(self.tasks@ == prior.remove(i as int));
                    assert forall|a: int| 0 <= a < self.tasks@.len() implies self.tasks@[a] == (
                    if a < i {
                        prior[a]
                    } else {
                        prior[a + 1]
                    }) by {}
                    assert forall|a: int, b: int|
                        0 <= a < b < self.tasks@.len() implies self.tasks@[a].id
                        != self.tasks@[b].id by {
                        let pa: int = if a < i { a } else { a + 1 };
                        let pb: int = if b < i { b } else { b + 1 };
                        assert(self.tasks@[a] == old(self).tasks_seq()[pa] && self.tasks@[b]
                            == old(self).tasks_seq()[pb]);
                    }
                    assert forall|a: int| 0 <= a < self.tasks@.len() implies 1 <= #[trigger] self.tasks@[a].id
                        < self.next_id by {
                        let pa: int = if a < i { a } else { a + 1 };
                        assert(self.tasks@[a] == old(self).tasks_seq()[pa]);
                        assert(1 <= old(self).tasks_seq()[pa].id < old(self).spec_next_id());
                    }
                    assert(self.wf());
                }
                return true;
            }
        }
        false
    }

    /// Sets the status of the task with the given id; `false` (and no
    /// change) when the id is absent. Mutates memory only.
    pub fn update_status(&mut self, id: u32, status: TaskStatus) -> (r: bool)
        requires
            old(self).wf(),
        ensures
            final(self).wf(),
            r == contains_id(old(self).tasks_seq(), id),
            !r ==> final(self).tasks_seq() == old(self).tasks_seq(),
            r ==> exists|k: int|
                0 <= k < old(self).tasks_seq().len() && old(self).tasks_seq()[k].id == id && final(self).tasks_seq() == old(self).tasks_seq().update(
                    k,
                    Task { status, ..old(self).tasks_seq()[k] },
                ),
            final(self).spec_next_id() == old(self).spec_next_id(),
            final(self).spec_file_path() == old(self).spec_file_path(),
    {
        let n = self.tasks.len();
        for i in 0..n
            invariant
                old(self).wf(),
                n == self.tasks.len(),
                *self == *old(self),
                forall|k: int| 0 <= k < i ==> self.tasks@[k].id != id,
        {
            if self.tasks[i].id == id {
                let ghost prior = self.tasks@;
                let mut updated = self.tasks[i].clone();
                updated.status = status;
                proof {
                    assert(updated == Task { status, ..prior[i as int] });
                }
                self.tasks[i] = updated;
                proof {
                    assert(prior == old(self).tasks_seq());
                    assert(self.tasks@ == prior.update(i as int, updated));
                    assert forall|a: int, b: int|
                        0 <= a < b < self.tasks@.len() implies self.tasks@[a].id
                        != self.tasks@[b].id by {
                        assert(self.tasks@[a].id == old(self).tasks_seq()[a].id && self.tasks@[b].id
                            == old(self).tasks_seq()[b].id);
                    }
                    assert forall|a: int| 0 <= a < self.tasks@.len() implies 1 <= #[trigger] self.tasks@[a].id
                        < self.next_id by {
                        assert(self.tasks@[a].id == old(self).tasks_seq()[a].id);
                        assert(1 <= old(self).tasks_seq()[a].id < old(self).spec_next_id());
                    }
                    assert(self.wf());
                }
                return true;
            }
        }
        false
    }

    /// The canonical JSON snapshot of the whole store, the text a caller
    /// writes to the backing file after every mutation. Read-only.
    pub fn to_json(&self) -> (r: String)
        ensures
            r@ == crate::json::spec_serialize(self.tasks_seq()),
    {
        crate::json::serialize_tasks(&self.tasks)
    }

    /// Rebuilds a store from the contents of its backing file. The accepted
    /// language is deliberately the byte-for-byte canonical snapshot text —
    /// this library (and only it) writes the file, always in that form —
    /// so JSON that merely means the same in another layout is rejected as
    /// corrupt, like any other text, never silently turned into an empty
    /// store. Whatever is accepted, the input text is the canonical
    /// snapshot of the returned store, its ids are unique, and `next_id`
    /// sits just above the largest loaded id (or at `1` for an empty
    /// snapshot). That acceptance is owed on every canonical snapshot with
    /// unique in-range ids; the contract states it for the empty snapshot,
    /// and the test suite exercises it on populated ones.
    pub fn from_json(file_path: &str, contents: &str) -> (r: Result<TaskManager, StoreError>)
        ensures
            match r {
                Ok(m) => {
                    &&& m.wf()
                    &&& contents@ == crate::json::spec_serialize(m.tasks_seq())
                    &&& m.spec_file_path() == file_path@
                    &&& m.spec_next_id() == spec_max_id(m.tasks_seq()) + 1
                },
                Err(e) => e == StoreError::Corrupt,
            },
            contents@ == crate::json::spec_serialize(Seq::<Task>::empty()) ==> r is Ok,
    {
        proof {
            reveal_strlit("{}");
            assert(crate::json::spec_serialize(Seq::<Task>::empty()) == "{}"@);
        }
        let parsed = crate::json::parse_tasks(contents);
        let tasks = match parsed {
            Some(v) => v,
            None => {
                return Err(StoreError::Corrupt);
            },
        };
        let n = tasks.len();
        let mut max: u32 = 0;
        for i in 0..n
            invariant
                n == tasks@.len(),
                contents@ == crate::json::spec_serialize(Seq::<Task>::empty()) ==> n == 0,
                max as nat == spec_max_id(tasks@.take(i as int)),
                max < u32::MAX,
                forall|a: int, b: int| 0 <= a < b < i ==> tasks@[a].id != tasks@[b].id,
                forall|a: int| 0 <= a < i ==> 1 <= #[trigger] tasks@[a].id <= max,
        {
            let id = tasks[i].id;
            if id == 0 || id == u32::MAX {
                return Err(StoreError::Corrupt);
            }
            for j in 0..i
                invariant
                    n == tasks@.len(),
                    contents@ == crate::json::spec_serialize(Seq::<Task>::empty()) ==> n == 0,
                    i < n,
                    id == tasks@[i as int].id,
                    forall|a: int| 0 <= a < j ==> tasks@[a].id != id,
            {
                if tasks[j].id == id {
                    return Err(StoreError::Corrupt);
                }
            }
            proof {
                assert(tasks@.take(i + 1 as int).drop_last() =~= tasks@.take(i as int));
                assert(tasks@.take(i + 1 as int).last() == tasks@[i as int]);
            }
            if id > max {
                max = id;
            }
        }
        let encoded = crate::json::serialize_tasks(&tasks);
        if !(encoded == String::from_str(contents)) {
            return Err(StoreError::Corrupt);
        }
        proof {
            assert(tasks@.take(n as int) =~= tasks@);
        }
        let m = TaskManager { tasks, next_id: max + 1, file_path: file_path.to_owned() };
        Ok(m)
    }

    /// All tasks whose priority has the given rank, in insertion order.
    fn tasks_with_rank(&self, rank: u8) -> (r: Vec<Task>)
        ensures
            r@ == self.tasks_seq().filter(rank_pred(rank as int)),
    {
        let ghost pred = rank_pred(rank as int);
        let mut out: Vec<Task> = Vec::new();
        proof {
            reveal(Seq::filter);
            assert(self.tasks@.take(0).filter(pred) =~= Seq::<Task>::empty());
        }
        let n = self.tasks.len();
        for i in 0..n
            invariant
                n == self.tasks.len(),
                pred == rank_pred(rank as int),
                out@ == self.tasks@.take(i as int).filter(pred),
        {
            let ghost before = self.tasks@.take(i as int);
            let ghost after = self.tasks@.take(i + 1 as int);
            proof {
                reveal(Seq::filter);
                assert(after.drop_last() =~= before);
                assert(after.last() == self.tasks@[i as int]);
            }
            if priority_rank(self.tasks[i].priority) == rank {
                out.push(self.tasks[i].clone());
            }
        }
        proof {
            assert(self.tasks@.take(n as int) =~= self.tasks@);
        }
        out
    }

    /// Every task, ordered ascending by priority (`Low`, `Medium`, `High`);
    /// tasks of equal priority keep their insertion order, though callers
    /// should not rely on that. A read-only snapshot: the store itself is
    /// untouched.
    pub fn list_tasks_sorted_by_priority(&self) -> (r: Vec<Task>)
        ensures
            r@ == self.tasks_seq().filter(rank_pred(0)) + self.tasks_seq().filter(rank_pred(1))
                + self.tasks_seq().filter(rank_pred(2)),
            r@.to_multiset() == self.tasks_seq().to_multiset(),
            r@.len() == self.tasks_seq().len(),
            forall|i: int, j: int|
                0 <= i < j < r@.len() ==> spec_priority_rank(#[trigger] r@[i].priority)
                    <= spec_priority_rank(#[trigger] r@[j].priority),
    {
        let mut out = self.tasks_with_rank(0);
        let mut mids = self.tasks_with_rank(1);
        let mut highs = self.tasks_with_rank(2);
        let ghost f0 = self.tasks_seq().filter(rank_pred(0));
        let ghost f1 = self.tasks_seq().filter(rank_pred(1));
        let ghost f2 = self.tasks_seq().filter(rank_pred(2));
        out.append(&mut mids);
        out.append(&mut highs);
        proof {
            assert(out@ =~= f0 + f1 + f2);
            lemma_rank_partition(self.tasks_seq());
            broadcast use vstd::seq_lib::group_filter_ensures;

            assert forall|i: int, j: int|
                0 <= i < j < out@.len() implies spec_priority_rank(#[trigger] out@[i].priority)
                <= spec_priority_rank(#[trigger] out@[j].priority) by {
                assert(segment_rank(f0, f1, f2, i) <= segment_rank(f0, f1, f2, j));
                lemma_segment_rank(self.tasks_seq(), i);
                lemma_segment_rank(self.tasks_seq(), j);
            }
        }
        out
    }
}

/// The tasks whose priority sits at the given rank.
pub open spec fn rank_pred(rank: int) -> spec_fn(Task) -> bool {
    |t: Task| spec_priority_rank(t.priority) == rank
}

/// Which of the three rank groups the index `i` of the grouped listing
/// falls into.
spec fn segment_rank(f0: Seq<Task>, f1: Seq<Task>, f2: Seq<Task>, i: int) -> int {
    if i < f0.len() {
        0
    } else if i < f0.len() + f1.len() {
        1
    } else {
        2
    }
}

/// In the grouped listing, the element at `i` has exactly the priority rank
/// of the group it sits in.
proof fn lemma_segment_rank(ts: Seq<Task>, i: int)
    requires
        0 <= i < (ts.filter(rank_pred(0)) + ts.filter(rank_pred(1)) + ts.filter(rank_pred(2))).len(),
    ensures
        spec_priority_rank(
            (ts.filter(rank_pred(0)) + ts.filter(rank_pred(1)) + ts.filter(rank_pred(2)))[i].priority,
        ) == segment_rank(ts.filter(rank_pred(0)), ts.filter(rank_pred(1)), ts.filter(rank_pred(2)), i),
{
    broadcast use vstd::seq_lib::group_filter_ensures;

    let f0 = ts.filter(rank_pred(0));
    let f1 = ts.filter(rank_pred(1));
    let f2 = ts.filter(rank_pred(2));
    let whole = f0 + f1 + f2;
    if i < f0.len() {
        assert(whole[i] == f0[i]);
        assert(rank_pred(0)(f0[i]));
    } else if i < f0.len() + f1.len() {
        assert(whole[i] == f1[i - f0.len()]);
        assert(rank_pred(1)(f1[i - f0.len()]));
    } else {
        assert(whole[i] == f2[i - f0.len() - f1.len()]);
        assert(rank_pred(2)(f2[i - f0.len() - f1.len()]));
    }
}

/// Grouping the tasks by priority rank loses nothing and invents nothing:
/// the three groups together are a permutation of the original tasks.
proof fn lemma_rank_partition(ts: Seq<Task>)
    ensures
        (ts.filter(rank_pred(0)) + ts.filter(rank_pred(1)) + ts.filter(rank_pred(2))).to_multiset()
            =~= ts.to_multiset(),
        (ts.filter(rank_pred(0)) + ts.filter(rank_pred(1)) + ts.filter(rank_pred(2))).len()
            == ts.len(),
    decreases ts.len(),
{
    reveal(Seq::filter);
    broadcast use vstd::seq_lib::lemma_multiset_commutative;
    broadcast use vstd::seq_lib::group_to_multiset_ensures;

    let f0 = ts.filter(rank_pred(0));
    let f1 = ts.filter(rank_pred(1));
    let f2 = ts.filter(rank_pred(2));
    if ts.len() == 0 {
        assert(f0 + f1 + f2 =~= ts);
    } else {
        let d = ts.drop_last();
        let t = ts.last();
        lemma_rank_partition(d);
        let d0 = d.filter(rank_pred(0));
        let d1 = d.filter(rank_pred(1));
        let d2 = d.filter(rank_pred(2));
        assert(ts =~= d.push(t));
        assert(ts.to_multiset() =~= d.to_multiset().insert(t));
        match t.priority {
            TaskPriority::Low => {
                assert(f0 == d0.push(t) && f1 == d1 && f2 == d2);
                assert(f0 + f1 + f2 =~= (d0 + d1 + d2).insert(d0.len() as int, t));
                lemma_insert_multiset(d0 + d1 + d2, d0.len() as int, t);
            },
            TaskPriority::Medium => {
                assert(f0 == d0 && f1 == d1.push(t) && f2 == d2);
                assert(f0 + f1 + f2 =~= (d0 + d1 + d2).insert(d0.len() + d1.len() as int, t));
                lemma_insert_multiset(d0 + d1 + d2, d0.len() + d1.len() as int, t);
            },
            TaskPriority::High => {
                assert(f0 == d0 && f1 == d1 && f2 == d2.push(t));
                assert(f0 + f1 + f2 =~= (d0 + d1 + d2).push(t));
            },
        }
    }
}

/// Law: no two tasks in a well-formed store share an id. Construction
/// establishes well-formedness and every operation preserves it (see their
/// contracts), so this holds after any sequence of operations.
pub proof fn lemma_ids_unique(m: TaskManager, i: int, j: int)
    requires
        m.wf(),
        0 <= i < m.tasks_seq().len(),
        0 <= j < m.tasks_seq().len(),
        i != j,
    ensures
        m.tasks_seq()[i].id != m.tasks_seq()[j].id,
{
}

/// Law: a creation allocates a fresh id — strictly above every id the
/// store currently holds, so in particular never one still in use.
pub proof fn lemma_created_id_fresh(pre: TaskManager, post: TaskManager, id: u32)
    requires
        pre.wf(),
        spec_create(pre, post, id),
    ensures
        !contains_id(pre.tasks_seq(), id),
        forall|k: int| 0 <= k < pre.tasks_seq().len() ==> #[trigger] pre.tasks_seq()[k].id < id,
        post.spec_next_id() > id,
{
}

/// Law: ids are allocated monotonically and never reused. After one
/// creation returns `id1`, any later creation — with arbitrarily many
/// deletions and updates in between, none of which lowers the counter (see
/// their contracts) — returns a strictly larger id.
pub proof fn lemma_id_allocation_monotonic(
    s0: TaskManager,
    s1: TaskManager,
    s2: TaskManager,
    s3: TaskManager,
    id1: u32,
    id2: u32,
)
    requires
        spec_create(s0, s1, id1),
        s2.spec_next_id() >= s1.spec_next_id(),
        spec_create(s2, s3, id2),
    ensures
        id2 > id1,
{
}

/// Law: persistence round-trips. `to_json` hands a caller the canonical
/// snapshot of the store; `from_json` accepts only text that is the
/// canonical snapshot of the store it returns; and — this lemma — equal
/// snapshots mean equal content. Together: a store written out and one
/// constructed back from the written text hold the same tasks, entry for
/// entry, while `from_json`'s own contract re-derives the counter as one
/// above the largest loaded id.
pub proof fn lemma_snapshot_round_trip(m1: TaskManager, m2: TaskManager)
    requires
        crate::json::spec_serialize(m1.tasks_seq()) == crate::json::spec_serialize(m2.tasks_seq()),
    ensures
        m1.tasks_seq().len() == m2.tasks_seq().len(),
        forall|k: int|
            0 <= k < m1.tasks_seq().len() ==> task_content_eq(
                m1.tasks_seq()[k],
                m2.tasks_seq()[k],
            ),
{
    crate::json::lemma_snapshot_determines_content(m1.tasks_seq(), m2.tasks_seq());
}

/// Inserting anywhere in a sequence adds exactly that element to its
/// multiset.
proof fn lemma_insert_multiset(s: Seq<Task>, i: int, t: Task)
    requires
        0 <= i <= s.len(),
    ensures
        s.insert(i, t).to_multiset() =~= s.to_multiset().insert(t),
{
    broadcast use vstd::seq_lib::lemma_multiset_commutative;
    broadcast use vstd::seq_lib::group_to_multiset_ensures;
    broadcast use vstd::multiset::group_multiset_axioms;

    let left = s.subrange(0, i);
    let right = s.subrange(i, s.len() as int);
    assert(s.insert(i, t) == left.push(t) + right);
    assert(left.push(t).to_multiset() =~= left.to_multiset().insert(t));
    assert(s =~= left + right);
}

} // verus!
