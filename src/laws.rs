//! Facts about the store that relate several operations, or hold over whole
//! runs of them.
use crate::task::TaskView;
use crate::todo::{
    TodoView, holds_id, is_first_match, lemma_position_is, lemma_position_of, position_of,
};
use vstd::prelude::*;

verus! {

/// One call on the store, as a value.
pub enum Op {
    Add(Seq<char>),
    Complete(u32),
    Remove(u32),
}

/// The store after one call.
pub open spec fn step(v: TodoView, op: Op) -> TodoView {
    match op {
        Op::Add(d) => v.add(d).0,
        Op::Complete(id) => v.complete(id).0,
        Op::Remove(id) => v.remove(id).0,
    }
}

/// The store after a run of calls, first to last.
pub open spec fn run(v: TodoView, ops: Seq<Op>) -> TodoView
    decreases ops.len(),
{
    if ops.len() == 0 {
        v
    } else {
        run(step(v, ops[0]), ops.drop_first())
    }
}

/// How many of the calls are `Add`.
pub open spec fn count_adds(ops: Seq<Op>) -> nat
    decreases ops.len(),
{
    if ops.len() == 0 {
        0
    } else {
        (if ops[0] is Add { 1nat } else { 0nat }) + count_adds(ops.drop_first())
    }
}

/// How many `Remove` calls of a run from `v` found their record.
pub open spec fn count_removed(v: TodoView, ops: Seq<Op>) -> nat
    decreases ops.len(),
{
    if ops.len() == 0 {
        0
    } else {
        let here: nat = match ops[0] {
            Op::Remove(id) => if v.remove(id).1 { 1nat } else { 0nat },
            _ => 0nat,
        };
        here + count_removed(step(v, ops[0]), ops.drop_first())
    }
}

/// A well-formed store holds no id twice.
pub proof fn lemma_well_formed_ids_unique(v: TodoView)
    requires
        v.well_formed(),
    ensures
        v.ids_unique(),
{
    assert forall|i: int, j: int|
        0 <= i < v.tasks.len() && 0 <= j < v.tasks.len() && i != j implies
        #[trigger] v.tasks[i].id != #[trigger] v.tasks[j].id by {
        if i < j {
            assert(v.tasks[i].id < v.tasks[j].id);
        } else {
            assert(v.tasks[j].id < v.tasks[i].id);
        }
    }
}

/// The empty store is well formed.
pub proof fn lemma_empty_well_formed()
    ensures
        TodoView::empty().well_formed(),
{
}

/// Each call keeps a store well formed, an `Add` as long as the counter has
/// not reached the largest `u32`.
pub proof fn lemma_step_well_formed(v: TodoView, op: Op)
    requires
        v.well_formed(),
        op is Add ==> v.next_id < u32::MAX,
    ensures
        step(v, op).well_formed(),
        step(v, op).next_id == if op is Add { (v.next_id + 1) as u32 } else { v.next_id },
{
    lemma_position_of(v.tasks, op->Complete_0);
    lemma_position_of(v.tasks, op->Remove_0);
    match op {
        Op::Add(d) => {
            let w = v.add(d).0;
            assert forall|i: int| 0 <= i < w.tasks.len() implies #[trigger] w.tasks[i].id
                < w.next_id by {
                if i < v.tasks.len() {
                    assert(w.tasks[i] == v.tasks[i]);
                }
            }
            assert forall|i: int, j: int| 0 <= i < j < w.tasks.len() implies #[trigger] w.tasks[i].id
                < #[trigger] w.tasks[j].id by {
                assert(w.tasks[i] == v.tasks[i]);
                if j < v.tasks.len() {
                    assert(w.tasks[j] == v.tasks[j]);
                }
            }
        },
        Op::Complete(id) => {
            let w = v.complete(id).0;
            let p = position_of(v.tasks, id);
            assert forall|i: int| 0 <= i < w.tasks.len() implies w.tasks[i].id == v.tasks[i].id by {
                if i == p {
                } else {
                    assert(w.tasks[i] == v.tasks[i]);
                }
            }
        },
        Op::Remove(id) => {
            let w = v.remove(id).0;
            let p = position_of(v.tasks, id);
            if p >= 0 {
                assert forall|i: int| 0 <= i < w.tasks.len() implies w.tasks[i] == v.tasks[if i
                    < p { i } else { i + 1 }] by {}
                assert forall|i: int, j: int| 0 <= i < j < w.tasks.len() implies #[trigger] w.tasks[i].id
                    < #[trigger] w.tasks[j].id by {
                    let a = if i < p { i } else { i + 1 };
                    let b = if j < p { j } else { j + 1 };
                    assert(w.tasks[i] == v.tasks[a]);
                    assert(w.tasks[j] == v.tasks[b]);
                }
                assert forall|i: int| 0 <= i < w.tasks.len() implies #[trigger] w.tasks[i].id
                    < w.next_id by {
                    assert(w.tasks[i] == v.tasks[if i < p { i } else { i + 1 }]);
                }
            }
        },
    }
}

/// Over any run of calls from a well-formed store, ids stay strictly rising
/// in creation order, hence unique, as long as the run's `Add` calls do not
/// carry the counter past the largest `u32`.
pub proof fn lemma_run_ids_unique(v: TodoView, ops: Seq<Op>)
    requires
        v.well_formed(),
        v.next_id + count_adds(ops) <= u32::MAX,
    ensures
        run(v, ops).well_formed(),
        run(v, ops).ids_unique(),
    decreases ops.len(),
{
    if ops.len() == 0 {
        lemma_well_formed_ids_unique(v);
    } else {
        lemma_step_well_formed(v, ops[0]);
        lemma_run_ids_unique(step(v, ops[0]), ops.drop_first());
    }
}

/// Over any run of calls, the number of records is the number held at the
/// start, plus the `Add` calls, minus the `Remove` calls that found their
/// record.
pub proof fn lemma_run_len(v: TodoView, ops: Seq<Op>)
    ensures
        run(v, ops).tasks.len() + count_removed(v, ops) == v.tasks.len() + count_adds(ops),
    decreases ops.len(),
{
    if ops.len() > 0 {
        lemma_position_of(v.tasks, ops[0]->Remove_0);
        lemma_run_len(step(v, ops[0]), ops.drop_first());
    }
}

/// In a well-formed store, the record just added is what `get` returns for
/// the id that `add` gave: that id, the description, not done.
pub proof fn lemma_add_then_get(v: TodoView, description: Seq<char>)
    requires
        v.well_formed(),
    ensures
        ({
            let (w, id) = v.add(description);
            w.get(id) == Some(TaskView { id, description, completed: false })
        }),
{
    let (w, id) = v.add(description);
    let n = v.tasks.len() as int;
    assert(is_first_match(w.tasks, id, n)) by {
        assert forall|j: int| 0 <= j < n implies w.tasks[j].id != id by {
            assert(w.tasks[j] == v.tasks[j]);
        }
    }
    lemma_position_is(w.tasks, id, n);
}

/// `complete` on a held id returns true, `get` then shows the record done,
/// and a second `complete` returns true again and leaves it done.
pub proof fn lemma_complete_then_get(v: TodoView, id: u32)
    requires
        holds_id(v.tasks, id),
    ensures
        v.complete(id).1,
        v.complete(id).0.get(id) is Some,
        v.complete(id).0.get(id)->Some_0.completed,
        v.complete(id).0.get(id)->Some_0.id == id,
        v.complete(id).0.complete(id).1,
        v.complete(id).0.complete(id).0 == v.complete(id).0,
{
    lemma_position_of(v.tasks, id);
    let p = position_of(v.tasks, id);
    let w = v.complete(id).0;
    assert(is_first_match(w.tasks, id, p)) by {
        assert forall|j: int| 0 <= j < p implies w.tasks[j].id != id by {
            assert(w.tasks[j] == v.tasks[j]);
        }
    }
    lemma_position_is(w.tasks, id, p);
    assert(w.complete(id).0.tasks =~= w.tasks);
}

/// On an id that no record holds, `complete` and `remove` return false and
/// change nothing, and `get` returns nothing.
pub proof fn lemma_absent_id(v: TodoView, id: u32)
    requires
        !holds_id(v.tasks, id),
    ensures
        v.complete(id) == (v, false),
        v.remove(id) == (v, false),
        v.get(id) == None::<TaskView>,
{
    lemma_position_of(v.tasks, id);
}

/// In a well-formed store, an id never issued (at or above the counter) is
/// held by no record.
pub proof fn lemma_unissued_absent(v: TodoView, id: u32)
    requires
        v.well_formed(),
        id >= v.next_id,
    ensures
        !holds_id(v.tasks, id),
{
}

/// In a well-formed store, once `remove` has found an id, no record holds it
/// any more: a second `remove`, a `complete` and a `get` on it all find
/// nothing.
pub proof fn lemma_remove_once(v: TodoView, id: u32)
    requires
        v.well_formed(),
    ensures
        v.remove(id).1 == holds_id(v.tasks, id),
        v.remove(id).1 ==> !holds_id(v.remove(id).0.tasks, id),
        v.remove(id).1 ==> !v.remove(id).0.remove(id).1,
        v.remove(id).1 ==> !v.remove(id).0.complete(id).1,
        v.remove(id).1 ==> v.remove(id).0.get(id) == None::<TaskView>,
{
    lemma_position_of(v.tasks, id);
    lemma_well_formed_ids_unique(v);
    let w = v.remove(id).0;
    let p = position_of(v.tasks, id);
    if p >= 0 {
        assert forall|i: int| 0 <= i < w.tasks.len() implies w.tasks[i].id != id by {
            if i < p {
                assert(w.tasks[i] == v.tasks[i]);
            } else {
                assert(w.tasks[i] == v.tasks[i + 1]);
                assert(v.tasks[p].id != v.tasks[i + 1].id);
            }
        }
        lemma_absent_id(w, id);
    }
}

/// Once the counter has reached the largest `u32`, it stays there and every
/// later `add` hands out that same id again, so two records then share it.
pub proof fn lemma_saturated_add_repeats(v: TodoView, d1: Seq<char>, d2: Seq<char>)
    requires
        v.next_id == u32::MAX,
    ensures
        v.add(d1).1 == u32::MAX,
        v.add(d1).0.next_id == u32::MAX,
        v.add(d1).0.add(d2).1 == u32::MAX,
        !v.add(d1).0.add(d2).0.ids_unique(),
{
    let w = v.add(d1).0.add(d2).0;
    let n = v.tasks.len() as int;
    assert(w.tasks[n].id == w.tasks[n + 1].id);
}

} // verus!
