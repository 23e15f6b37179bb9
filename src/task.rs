use vstd::prelude::*;

verus! {

/// The mathematical value of a [`Task`]: its id, the characters of its
/// description and its completion flag.
pub struct TaskView {
    pub id: u32,
    pub description: Seq<char>,
    pub completed: bool,
}

/// One record of the store.
#[derive(Debug)]
pub struct Task {
    pub id: u32,
    pub description: String,
    pub completed: bool,
}

impl View for Task {
    type V = TaskView;

    open spec fn view(&self) -> TaskView {
        TaskView { id: self.id, description: self.description@, completed: self.completed }
    }
}

impl Clone for Task {
    fn clone(&self) -> (r: Self)
        ensures
            r == *self,
    {
        Task { id: self.id, description: self.description.clone(), completed: self.completed }
    }
}

} // verus!
