//! The task store: an in-memory mapping from integer identifiers to task
//! records, with monotonic identifier assignment.
//!
//! Tasks are kept in insertion order; because identifiers are handed out in
//! strictly increasing order and never reused, the sequence of stored
//! identifiers is strictly increasing, which is the store's invariant.

use vstd::prelude::*;

verus! {

/// A unit of to-do work.
pub struct Task {
    pub id: u32,
    pub description: String,
    pub completed: bool,
}

/// The mathematical value of a task: its fields as plain values.
pub struct TaskModel {
    pub id: u32,
    pub description: Seq<char>,
    pub completed: bool,
}

/// The mathematical value of the store: the task records in insertion order,
/// and the identifier the next create will hand out.
pub struct StoreModel {
    pub tasks: Seq<TaskModel>,
    pub next_id: u32,
}

impl View for Task {
    type V = TaskModel;

    open spec fn view(&self) -> TaskModel {
        TaskModel { id: self.id, description: self.description@, completed: self.completed }
    }
}

pub open spec fn tasks_view(v: Seq<Task>) -> Seq<TaskModel> {
    v.map_values(|t: Task| t@)
}

/// Whether some stored task carries the identifier `id`.
pub open spec fn contains_id(tasks: Seq<TaskModel>, id: u32) -> bool {
    exists|i: int| 0 <= i < tasks.len() && tasks[i].id == id
}

/// The position of the task carrying `id`; meaningful only when
/// `contains_id` holds (and then unique in a well-formed store).
pub open spec fn index_of(tasks: Seq<TaskModel>, id: u32) -> int {
    choose|i: int| 0 <= i < tasks.len() && tasks[i].id == id
}

/// The store's invariant: every stored identifier was issued (is below
/// `next_id`), and identifiers appear in strictly increasing order, so no
/// two tasks share one.
pub open spec fn store_wf(s: StoreModel) -> bool {
    &&& forall|i: int| 0 <= i < s.tasks.len() ==> (#[trigger] s.tasks[i].id) < s.next_id
    &&& forall|i: int, j: int|
        0 <= i < j < s.tasks.len() ==> (#[trigger] s.tasks[i].id) < (#[trigger] s.tasks[j].id)
}

/// Effect of a create: a record with the next identifier, the given
/// description and `completed == false` is appended, and the counter moves
/// past the identifier just issued.
pub open spec fn create_model(s: StoreModel, description: Seq<char>) -> (StoreModel, TaskModel) {
    let t = TaskModel { id: s.next_id, description, completed: false };
    (StoreModel { tasks: s.tasks.push(t), next_id: (s.next_id + 1) as u32 }, t)
}

/// The record `t` after an update: fields provided in the input envelope
/// overwrite the stored ones, fields absent from it are left unchanged.
pub open spec fn updated_task(
    t: TaskModel,
    description: Option<Seq<char>>,
    completed: Option<bool>,
) -> TaskModel {
    TaskModel {
        id: t.id,
        description: if description is Some { description->Some_0 } else { t.description },
        completed: if completed is Some { completed->Some_0 } else { t.completed },
    }
}

/// Effect of an update: if `id` is absent the store is unchanged and nothing
/// is returned; otherwise the one record carrying `id` is replaced by its
/// updated form, which is also returned.
pub open spec fn update_model(
    s: StoreModel,
    id: u32,
    description: Option<Seq<char>>,
    completed: Option<bool>,
) -> (StoreModel, Option<TaskModel>) {
    if contains_id(s.tasks, id) {
        let i = index_of(s.tasks, id);
        let t = updated_task(s.tasks[i], description, completed);
        (StoreModel { tasks: s.tasks.update(i, t), next_id: s.next_id }, Some(t))
    } else {
        (s, None)
    }
}

/// Effect of a delete: if `id` is absent the store is unchanged and nothing
/// is returned; otherwise the one record carrying `id` is removed and
/// returned.
pub open spec fn delete_model(s: StoreModel, id: u32) -> (StoreModel, Option<TaskModel>) {
    if contains_id(s.tasks, id) {
        let i = index_of(s.tasks, id);
        (StoreModel { tasks: s.tasks.remove(i), next_id: s.next_id }, Some(s.tasks[i]))
    } else {
        (s, None)
    }
}

/// In a well-formed store the witness of `contains_id` is unique, so
/// `index_of` returns exactly the position of any task carrying `id`.
pub proof fn lemma_index_of_unique(s: StoreModel, id: u32, i: int)
    requires
        store_wf(s),
        0 <= i < s.tasks.len(),
        s.tasks[i].id == id,
    ensures
        contains_id(s.tasks, id),
        index_of(s.tasks, id) == i,
{
    assert(contains_id(s.tasks, id));
    let j = index_of(s.tasks, id);
    if j < i {
        assert(s.tasks[j].id < s.tasks[i].id);
    } else if j > i {
        assert(s.tasks[i].id < s.tasks[j].id);
    }
}

/// The shared store of tasks. Identifier assignment is owned by the store:
/// `next_id` is strictly greater than every identifier ever issued.
pub struct TodoApp {
    tasks: Vec<Task>,
    next_id: u32,
}

impl View for TodoApp {
    type V = StoreModel;

    closed spec fn view(&self) -> StoreModel {
        StoreModel { tasks: tasks_view(self.tasks@), next_id: self.next_id }
    }
}

impl TodoApp {
    /// The store's invariant; established by `new` and preserved by every
    /// operation.
    pub open spec fn wf(&self) -> bool {
        store_wf(self@)
    }

    /// An empty store whose first identifier will be 1.
    pub fn new() -> (r: Self)
        ensures
            r.wf(),
            r@.tasks == Seq::<TaskModel>::empty(),
            r@.next_id == 1,
    {
        let r = TodoApp { tasks: Vec::new(), next_id: 1 };
        proof {
            assert(tasks_view(r.tasks@) =~= Seq::<TaskModel>::empty());
        }
        r
    }

    /// True once every `u32` identifier has been issued; `create_task` must
    /// not be called then.
    pub fn at_capacity(&self) -> (r: bool)
        ensures
            r == (self@.next_id == u32::MAX),
    {
        self.next_id == u32::MAX
    }

    /// Allocates the next unused identifier and inserts a new record with
    /// `completed == false`; returns a copy of the record. The identifier is
    /// fresh: no stored task carries it before the call.
    pub fn create_task(&mut self, description: String) -> (r: Task)
        requires
            old(self).wf(),
            old(self)@.next_id < u32::MAX,
        ensures
            final(self).wf(),
            (final(self)@, r@) == create_model(old(self)@, description@),
            r@.id == old(self)@.next_id,
            r@.completed == false,
            r@.description == description@,
            !contains_id(old(self)@.tasks, r@.id),
    {
        let id = self.next_id;
        self.next_id = self.next_id + 1;
        let task = Task { id, description, completed: false };
        let copy = Task {
            id,
            description: task.description.clone(),
            completed: task.completed,
        };
        self.tasks.push(task);
        proof {
            let pre = old(self)@;
            assert(tasks_view(self.tasks@) =~= pre.tasks.push(copy@));
            assert forall|i: int| 0 <= i < self@.tasks.len() implies (
                #[trigger] self@.tasks[i].id) < self@.next_id by {
                if i < pre.tasks.len() {
                    assert(self@.tasks[i] == pre.tasks[i]);
                }
            }
        }
        copy
    }

    /// A snapshot copy of all current records, in insertion order.
    pub fn get_all_tasks(&self) -> (r: Vec<Task>)
        ensures
            tasks_view(r@) == self@.tasks,
    {
        let mut out: Vec<Task> = Vec::new();
        let mut i: usize = 0;
        while i < self.tasks.len()
            invariant
                i <= self.tasks.len(),
                out@.len() == i,
                forall|j: int| 0 <= j < i ==> (#[trigger] out@[j])@ == self@.tasks[j],
            decreases self.tasks.len() - i,
        {
            let t = &self.tasks[i];
            out.push(Task { id: t.id, description: t.description.clone(), completed: t.completed });
            i = i + 1;
        }
        proof {
            assert(tasks_view(out@) =~= self@.tasks);
        }
        out
    }

    /// The position of the record carrying `id`, if any.
    fn find_index(&self, id: u32) -> (r: Option<usize>)
        requires
            self.wf(),
        ensures
            match r {
                Some(i) => i < self@.tasks.len() && self@.tasks[i as int].id == id
                    && index_of(self@.tasks, id) == i && contains_id(self@.tasks, id),
                None => !contains_id(self@.tasks, id),
            },
    {
        let mut i: usize = 0;
        while i < self.tasks.len()
            invariant
                self.wf(),
                i <= self.tasks.len(),
                forall|j: int| 0 <= j < i ==> (#[trigger] self@.tasks[j].id) != id,
            decreases self.tasks.len() - i,
        {
            if self.tasks[i].id == id {
                proof {
                    lemma_index_of_unique(self@, id, i as int);
                }
                return Some(i);
            }
            i = i + 1;
        }
        None
    }

    /// Applies the provided fields to the record carrying `id` and returns a
    /// copy of the updated record, or returns nothing when `id` is absent
    /// (and then leaves the store unchanged).
    pub fn update_task(
        &mut self,
        id: u32,
        description: Option<String>,
        completed: Option<bool>,
    ) -> (r: Option<Task>)
        requires
            old(self).wf(),
        ensures
            final(self).wf(),
            final(self)@ == update_model(old(self)@, id, opt_str_view(description), completed).0,
            opt_task_view(r) == update_model(old(self)@, id, opt_str_view(description), completed).1,
            r is Some <==> contains_id(old(self)@.tasks, id),
    {
        let ghost pre = old(self)@;
        let ghost d_view = opt_str_view(description);
        match self.find_index(id) {
            Some(i) => {
                let t_old = self.tasks.remove(i);
                let t_new = Task {
                    id: t_old.id,
                    description: match description {
                        Some(d) => d,
                        None => t_old.description,
                    },
                    completed: match completed {
                        Some(c) => c,
                        None => t_old.completed,
                    },
                };
                let copy = Task {
                    id: t_new.id,
                    description: t_new.description.clone(),
                    completed: t_new.completed,
                };
                self.tasks.insert(i, t_new);
                proof {
                    assert(copy@ == updated_task(pre.tasks[i as int], d_view, completed));
                    assert(tasks_view(self.tasks@) =~= pre.tasks.update(i as int, copy@));
                    assert forall|a: int, b: int|
                        0 <= a < b < self@.tasks.len() implies (#[trigger] self@.tasks[a].id) < (
                    #[trigger] self@.tasks[b].id) by {
                        assert(pre.tasks[a].id < pre.tasks[b].id);
                    }
                    assert forall|a: int| 0 <= a < self@.tasks.len() implies (
                        #[trigger] self@.tasks[a].id) < self@.next_id by {
                        assert(pre.tasks[a].id < pre.next_id);
                    }
                }
                Some(copy)
            },
            None => None,
        }
    }

    /// Removes and returns the record carrying `id`, or returns nothing when
    /// `id` is absent (and then leaves the store unchanged). Afterwards no
    /// stored task carries `id`.
    pub fn delete_task(&mut self, id: u32) -> (r: Option<Task>)
        requires
            old(self).wf(),
        ensures
            final(self).wf(),
            final(self)@ == delete_model(old(self)@, id).0,
            opt_task_view(r) == delete_model(old(self)@, id).1,
            r is Some <==> contains_id(old(self)@.tasks, id),
            !contains_id(final(self)@.tasks, id),
    {
        let ghost pre = old(self)@;
        match self.find_index(id) {
            Some(i) => {
                let t = self.tasks.remove(i);
                proof {
                    assert(tasks_view(self.tasks@) =~= pre.tasks.remove(i as int));
                    assert forall|a: int, b: int|
                        0 <= a < b < self@.tasks.len() implies (#[trigger] self@.tasks[a].id) < (
                    #[trigger] self@.tasks[b].id) by {
                        let a0 = if a < i { a } else { a + 1 };
                        let b0 = if b < i { b } else { b + 1 };
                        assert(self@.tasks[a] == pre.tasks[a0]);
                        assert(self@.tasks[b] == pre.tasks[b0]);
                        assert(pre.tasks[a0].id < pre.tasks[b0].id);
                    }
                    assert forall|a: int| 0 <= a < self@.tasks.len() implies (
                        #[trigger] self@.tasks[a].id) < self@.next_id by {
                        let a0 = if a < i { a } else { a + 1 };
                        assert(self@.tasks[a] == pre.tasks[a0]);
                    }
                    assert forall|a: int| 0 <= a < self@.tasks.len() implies (
                        #[trigger] self@.tasks[a].id) != id by {
                        let a0 = if a < i { a } else { a + 1 };
                        assert(self@.tasks[a] == pre.tasks[a0]);
                        if a0 != i {
                            lemma_index_of_unique(pre, id, i as int);
                            if pre.tasks[a0].id == id {
                                lemma_index_of_unique(pre, id, a0);
                            }
                        }
                    }
                }
                Some(t)
            },
            None => None,
        }
    }
}

/// No stored task carries the identifier the next create will hand out, so
/// a create never duplicates an identifier.
pub proof fn lemma_next_id_fresh(s: StoreModel)
    requires
        store_wf(s),
    ensures
        !contains_id(s.tasks, s.next_id),
{
}

/// In a well-formed store no two tasks share an identifier.
pub proof fn lemma_ids_pairwise_distinct(s: StoreModel, i: int, j: int)
    requires
        store_wf(s),
        0 <= i < s.tasks.len(),
        0 <= j < s.tasks.len(),
        i != j,
    ensures
        s.tasks[i].id != s.tasks[j].id,
{
}

/// A create preserves the invariant, appends exactly one record, and moves
/// the counter up by one.
pub proof fn lemma_create_wf(s: StoreModel, d: Seq<char>)
    requires
        store_wf(s),
        s.next_id < u32::MAX,
    ensures
        store_wf(create_model(s, d).0),
        create_model(s, d).0.tasks.len() == s.tasks.len() + 1,
        create_model(s, d).0.next_id == s.next_id + 1,
        create_model(s, d).1.id == s.next_id,
{
    let (s1, t) = create_model(s, d);
    assert forall|i: int, j: int| 0 <= i < j < s1.tasks.len() implies (
        #[trigger] s1.tasks[i].id) < (#[trigger] s1.tasks[j].id) by {
        if j < s.tasks.len() {
            assert(s.tasks[i].id < s.tasks[j].id);
        } else {
            assert(s.tasks[i].id < s.next_id);
        }
    }
}

/// Identifiers from successive creates strictly increase, whatever the
/// descriptions: the second create hands out a larger identifier than the
/// first, and neither was carried by any earlier task.
pub proof fn lemma_create_ids_strictly_increase(s0: StoreModel, d1: Seq<char>, d2: Seq<char>)
    requires
        store_wf(s0),
        s0.next_id + 1 < u32::MAX,
    ensures
        ({
            let (s1, t1) = create_model(s0, d1);
            let (s2, t2) = create_model(s1, d2);
            &&& t1.id < t2.id
            &&& !contains_id(s0.tasks, t1.id)
            &&& !contains_id(s1.tasks, t2.id)
            &&& store_wf(s2)
        }),
{
    let (s1, t1) = create_model(s0, d1);
    lemma_create_wf(s0, d1);
    lemma_create_wf(s1, d2);
    lemma_next_id_fresh(s0);
    lemma_next_id_fresh(s1);
}

/// The store after a whole sequence of creates, one per description.
pub open spec fn create_all(s: StoreModel, ds: Seq<Seq<char>>) -> StoreModel
    decreases ds.len(),
{
    if ds.len() == 0 {
        s
    } else {
        create_all(create_model(s, ds[0]).0, ds.drop_first())
    }
}

/// However many creates run — under the store's lock any interleaving of
/// concurrent creates is some such sequence — the store gains exactly one
/// task per create, stays well-formed, and so ends with pairwise-distinct
/// identifiers.
pub proof fn lemma_create_all_distinct(s: StoreModel, ds: Seq<Seq<char>>)
    requires
        store_wf(s),
        s.next_id + ds.len() <= u32::MAX,
    ensures
        store_wf(create_all(s, ds)),
        create_all(s, ds).tasks.len() == s.tasks.len() + ds.len(),
        create_all(s, ds).next_id == s.next_id + ds.len(),
        forall|i: int, j: int|
            0 <= i < j < create_all(s, ds).tasks.len()
                ==> (#[trigger] create_all(s, ds).tasks[i].id) != (
            #[trigger] create_all(s, ds).tasks[j].id),
    decreases ds.len(),
{
    if ds.len() > 0 {
        lemma_create_wf(s, ds[0]);
        lemma_create_all_distinct(create_model(s, ds[0]).0, ds.drop_first());
    }
}

/// A deleted identifier never returns: right after the delete no stored task
/// carries it, and a later create hands out a different identifier (a fresh
/// one above everything ever issued), so re-listing never shows it again.
pub proof fn lemma_deleted_id_never_reused(s0: StoreModel, id: u32, d: Seq<char>)
    requires
        store_wf(s0),
        contains_id(s0.tasks, id),
        s0.next_id < u32::MAX,
    ensures
        ({
            let (s1, removed) = delete_model(s0, id);
            let (s2, created) = create_model(s1, d);
            &&& removed matches Some(r) && r.id == id
            &&& !contains_id(s1.tasks, id)
            &&& created.id != id
            &&& !contains_id(s2.tasks, id)
        }),
{
    let i = index_of(s0.tasks, id);
    lemma_index_of_unique(s0, id, i);
    let (s1, removed) = delete_model(s0, id);
    assert forall|a: int| 0 <= a < s1.tasks.len() implies (#[trigger] s1.tasks[a].id) != id by {
        let a0 = if a < i { a } else { a + 1 };
        assert(s1.tasks[a] == s0.tasks[a0]);
        if s0.tasks[a0].id == id {
            lemma_index_of_unique(s0, id, a0);
        }
    }
    assert forall|a: int, b: int| 0 <= a < b < s1.tasks.len() implies (
        #[trigger] s1.tasks[a].id) < (#[trigger] s1.tasks[b].id) by {
        let a0 = if a < i { a } else { a + 1 };
        let b0 = if b < i { b } else { b + 1 };
        assert(s1.tasks[a] == s0.tasks[a0]);
        assert(s1.tasks[b] == s0.tasks[b0]);
        assert(s0.tasks[a0].id < s0.tasks[b0].id);
    }
    assert forall|a: int| 0 <= a < s1.tasks.len() implies (#[trigger] s1.tasks[a].id)
        < s1.next_id by {
        let a0 = if a < i { a } else { a + 1 };
        assert(s1.tasks[a] == s0.tasks[a0]);
    }
    let (s2, created) = create_model(s1, d);
    assert(s0.tasks[i].id < s0.next_id);
    assert forall|a: int| 0 <= a < s2.tasks.len() implies (#[trigger] s2.tasks[a].id) != id by {
        if a < s1.tasks.len() {
            assert(s2.tasks[a] == s1.tasks[a]);
        }
    }
}

/// An update that provides only `completed` keeps the description; one that
/// provides only a description keeps the flag; one that provides neither
/// leaves the record unchanged but still returns it.
pub proof fn lemma_update_partial(s: StoreModel, id: u32)
    requires
        store_wf(s),
        contains_id(s.tasks, id),
    ensures
        ({
            let t = s.tasks[index_of(s.tasks, id)];
            &&& forall|c: bool|
                #![all_triggers]
                update_model(s, id, None, Some(c)).1 == Some(
                    TaskModel { id: t.id, description: t.description, completed: c },
                )
            &&& forall|d: Seq<char>|
                #![all_triggers]
                update_model(s, id, Some(d), None).1 == Some(
                    TaskModel { id: t.id, description: d, completed: t.completed },
                )
            &&& update_model(s, id, None, None).1 == Some(t)
            &&& update_model(s, id, None, None).0.tasks =~= s.tasks
        }),
{
    let i = index_of(s.tasks, id);
    assert(update_model(s, id, None, None).0.tasks =~= s.tasks);
}

/// The mathematical value of an optional description.
pub open spec fn opt_str_view(d: Option<String>) -> Option<Seq<char>> {
    match d {
        Some(s) => Some(s@),
        None => None,
    }
}

/// The mathematical value of an optional task copy.
pub open spec fn opt_task_view(r: Option<Task>) -> Option<TaskModel> {
    match r {
        Some(t) => Some(t@),
        None => None,
    }
}

} // verus!
