//! A small store of task records, each identified by an integer id that the
//! store hands out from a saturating counter.

pub mod laws;
pub mod task;
pub mod todo;

pub use task::{Task, TaskView};
pub use todo::{Todo, TodoView};
