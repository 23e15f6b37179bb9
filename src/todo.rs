use crate::task::{Task, TaskView};
use vstd::prelude::*;

verus! {

/// Whether index `i` holds the first record of `tasks` whose id is `id`.
pub open spec fn is_first_match(tasks: Seq<TaskView>, id: u32, i: int) -> bool {
    &&& 0 <= i < tasks.len()
    &&& tasks[i].id == id
    &&& forall|j: int| 0 <= j < i ==> tasks[j].id != id
}

/// Whether some record of `tasks` has the id `id`.
pub open spec fn holds_id(tasks: Seq<TaskView>, id: u32) -> bool {
    exists|i: int| 0 <= i < tasks.len() && tasks[i].id == id
}

/// The index of the first record of `tasks` with the id `id`, or -1 where
/// there is none.
pub open spec fn position_of(tasks: Seq<TaskView>, id: u32) -> int {
    if exists|i: int| is_first_match(tasks, id, i) {
        choose|i: int| is_first_match(tasks, id, i)
    } else {
        -1
    }
}

/// The counter after one step: one more, held at the largest `u32`.
pub open spec fn bump(n: u32) -> u32 {
    if n == u32::MAX {
        u32::MAX
    } else {
        (n + 1) as u32
    }
}

/// The mathematical value of a [`Todo`]: its records in order, and the id
/// that the next `add_task` hands out.
pub struct TodoView {
    pub tasks: Seq<TaskView>,
    pub next_id: u32,
}

impl TodoView {
    /// The empty store.
    pub open spec fn empty() -> TodoView {
        TodoView { tasks: Seq::empty(), next_id: 0 }
    }

    /// Ids rise strictly along the sequence (so no two records share one, and
    /// the order is the order of creation), and each lies below the counter.
    pub open spec fn well_formed(self) -> bool {
        &&& forall|i: int, j: int|
            0 <= i < j < self.tasks.len() ==> #[trigger] self.tasks[i].id < #[trigger] self.tasks[j].id
        &&& forall|i: int| 0 <= i < self.tasks.len() ==> #[trigger] self.tasks[i].id < self.next_id
    }

    /// No two records share an id.
    pub open spec fn ids_unique(self) -> bool {
        forall|i: int, j: int|
            0 <= i < self.tasks.len() && 0 <= j < self.tasks.len() && i != j
                ==> #[trigger] self.tasks[i].id != #[trigger] self.tasks[j].id
    }

    /// The store after adding a record with the given description, and the id
    /// it was given.
    pub open spec fn add(self, description: Seq<char>) -> (TodoView, u32) {
        let task = TaskView { id: self.next_id, description, completed: false };
        (TodoView { tasks: self.tasks.push(task), next_id: bump(self.next_id) }, self.next_id)
    }

    /// The store after marking the first record with the id as done, and
    /// whether there was one.
    pub open spec fn complete(self, id: u32) -> (TodoView, bool) {
        let p = position_of(self.tasks, id);
        if p < 0 {
            (self, false)
        } else {
            let t = self.tasks[p];
            let done = TaskView { id: t.id, description: t.description, completed: true };
            (TodoView { tasks: self.tasks.update(p, done), next_id: self.next_id }, true)
        }
    }

    /// The store after deleting the first record with the id, and whether
    /// there was one.
    pub open spec fn remove(self, id: u32) -> (TodoView, bool) {
        let p = position_of(self.tasks, id);
        if p < 0 {
            (self, false)
        } else {
            (TodoView { tasks: self.tasks.remove(p), next_id: self.next_id }, true)
        }
    }

    /// The first record with the id, if any.
    pub open spec fn get(self, id: u32) -> Option<TaskView> {
        let p = position_of(self.tasks, id);
        if p < 0 {
            None
        } else {
            Some(self.tasks[p])
        }
    }
}

/// There is a first match exactly where there is a match, and `position_of`
/// names it.
pub proof fn lemma_position_of(tasks: Seq<TaskView>, id: u32)
    ensures
        holds_id(tasks, id) <==> position_of(tasks, id) >= 0,
        holds_id(tasks, id) ==> is_first_match(tasks, id, position_of(tasks, id)),
        !holds_id(tasks, id) ==> position_of(tasks, id) == -1,
{
    if holds_id(tasks, id) {
        let k = choose|k: int| 0 <= k < tasks.len() && tasks[k].id == id;
        lemma_first_match_exists(tasks, id, k);
    }
}

proof fn lemma_first_match_exists(tasks: Seq<TaskView>, id: u32, k: int)
    requires
        0 <= k < tasks.len(),
        tasks[k].id == id,
    ensures
        exists|i: int| is_first_match(tasks, id, i),
    decreases k,
{
    if !is_first_match(tasks, id, k) {
        let j = choose|j: int| 0 <= j < k && tasks[j].id == id;
        lemma_first_match_exists(tasks, id, j);
    }
}

/// Two first matches are the same index.
pub proof fn lemma_first_match_unique(tasks: Seq<TaskView>, id: u32, i: int, k: int)
    requires
        is_first_match(tasks, id, i),
        is_first_match(tasks, id, k),
    ensures
        i == k,
{
}

/// Wherever `i` is the first match, `position_of` is `i`.
pub proof fn lemma_position_is(tasks: Seq<TaskView>, id: u32, i: int)
    requires
        is_first_match(tasks, id, i),
    ensures
        position_of(tasks, id) == i,
{
    lemma_position_of(tasks, id);
    lemma_first_match_unique(tasks, id, i, position_of(tasks, id));
}

/// The store of task records.
pub struct Todo {
    tasks: Vec<Task>,
    next_id: u32,
}

impl View for Todo {
    type V = TodoView;

    closed spec fn view(&self) -> TodoView {
        TodoView { tasks: self.tasks@.map_values(|t: Task| t@), next_id: self.next_id }
    }
}

impl Default for Todo {
    fn default() -> (r: Self)
        ensures
            r@ == TodoView::empty(),
            r@.well_formed(),
    {
        Self::new()
    }
}

impl Todo {
    /// An empty store whose first id is 0.
    pub fn new() -> (r: Self)
        ensures
            r@ == TodoView::empty(),
            r@.well_formed(),
    {
        let r = Todo { tasks: Vec::new(), next_id: 0 };
        assert(r@.tasks =~= Seq::<TaskView>::empty());
        r
    }

    /// Appends a record with the description, not done, under the current
    /// counter, which it returns; the counter then moves on by one, held at
    /// the largest `u32`.
    pub fn add_task(&mut self, description: String) -> (id: u32)
        ensures
            (final(self)@, id) == old(self)@.add(description@),
            old(self)@.well_formed() && old(self)@.next_id < u32::MAX ==> final(self)@.well_formed(),
    {
        let id = self.next_id;
        let task = Task { id, description, completed: false };
        self.tasks.push(task);
        self.next_id = self.next_id.saturating_add(1);
        assert(self@.tasks =~= old(self)@.add(description@).0.tasks);
        id
    }

    /// Marks the first record with the id as done; returns whether there was
    /// one.
    pub fn complete_task(&mut self, id: u32) -> (found: bool)
        ensures
            (final(self)@, found) == old(self)@.complete(id),
            found == holds_id(old(self)@.tasks, id),
            final(self)@.tasks.len() == old(self)@.tasks.len(),
            forall|i: int|
                0 <= i < old(self)@.tasks.len() ==> #[trigger] final(self)@.tasks[i].id
                    == old(self)@.tasks[i].id,
            old(self)@.well_formed() ==> final(self)@.well_formed(),
    {
        let i = self.find_index(id);
        proof {
            lemma_position_of(self@.tasks, id);
        }
        if i < self.tasks.len() {
            proof {
                lemma_position_is(self@.tasks, id, i as int);
            }
            self.tasks[i].completed = true;
            assert(self@.tasks =~= old(self)@.complete(id).0.tasks);
            true
        } else {
            false
        }
    }

    /// Deletes the first record with the id, the later ones moving up by one;
    /// returns whether there was one. The counter is left as it is.
    pub fn remove_task(&mut self, id: u32) -> (found: bool)
        ensures
            (final(self)@, found) == old(self)@.remove(id),
            found == holds_id(old(self)@.tasks, id),
            old(self)@.well_formed() ==> final(self)@.well_formed(),
    {
        let i = self.find_index(id);
        proof {
            lemma_position_of(self@.tasks, id);
        }
        if i < self.tasks.len() {
            proof {
                lemma_position_is(self@.tasks, id, i as int);
            }
            self.tasks.remove(i);
            assert(self@.tasks =~= old(self)@.remove(id).0.tasks);
            true
        } else {
            false
        }
    }

    /// A copy of every record, in order.
    pub fn get_tasks(&self) -> (r: Vec<Task>)
        ensures
            r@.map_values(|t: Task| t@) == self@.tasks,
    {
        let r = self.tasks.clone();
        assert(r@.map_values(|t: Task| t@) =~= self@.tasks);
        r
    }

    /// A copy of the first record with the id, or `None` where there is none.
    pub fn get_task(&self, id: u32) -> (r: Option<Task>)
        ensures
            match r {
                Some(t) => self@.get(id) == Some(t@),
                None => self@.get(id) == None::<TaskView>,
            },
            r is Some == holds_id(self@.tasks, id),
    {
        let i = self.find_index(id);
        proof {
            lemma_position_of(self@.tasks, id);
        }
        if i < self.tasks.len() {
            proof {
                lemma_position_is(self@.tasks, id, i as int);
            }
            Some(self.tasks[i].clone())
        } else {
            None
        }
    }

    /// The index of the first record with the id, or the length where there
    /// is none.
    fn find_index(&self, id: u32) -> (i: usize)
        ensures
            i <= self.tasks.len(),
            i < self.tasks.len() ==> is_first_match(self@.tasks, id, i as int),
            i == self.tasks.len() ==> !holds_id(self@.tasks, id),
    {
        let mut i: usize = 0;
        while i < self.tasks.len()
            invariant
                i <= self.tasks.len(),
                forall|j: int| 0 <= j < i ==> self@.tasks[j].id != id,
            decreases self.tasks.len() - i,
        {
            if self.tasks[i].id == id {
                return i;
            }
            i += 1;
        }
        i
    }
}

} // verus!
