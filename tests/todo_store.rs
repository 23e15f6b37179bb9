use todo::{Task, Todo};

fn add(todo: &mut Todo, s: &str) -> u32 {
    todo.add_task(String::from(s))
}

#[test]
fn new_works() {
    let todo = Todo::new();
    assert_eq!(todo.get_tasks().len(), 0);
}

#[test]
fn add_task_works() {
    let mut todo = Todo::new();
    let id = todo.add_task(String::from("Buy milk"));
    assert_eq!(id, 0);
    assert_eq!(todo.get_tasks().len(), 1);

    let task = todo.get_task(id).unwrap();
    assert_eq!(task.description, "Buy milk");
    assert_eq!(task.completed, false);
}

#[test]
fn complete_task_works() {
    let mut todo = Todo::new();
    let id = todo.add_task(String::from("Buy milk"));

    assert!(todo.complete_task(id));
    let task = todo.get_task(id).unwrap();
    assert_eq!(task.completed, true);
}

#[test]
fn remove_task_works() {
    let mut todo = Todo::new();
    let id = todo.add_task(String::from("Buy milk"));

    assert!(todo.remove_task(id));
    assert_eq!(todo.get_tasks().len(), 0);
    assert!(todo.get_task(id).is_none());
}

#[test]
fn default_is_empty() {
    let mut todo = Todo::default();
    assert!(todo.get_tasks().is_empty());
    assert_eq!(add(&mut todo, "first"), 0);
}

#[test]
fn add_then_get_returns_the_record() {
    let mut todo = Todo::new();
    add(&mut todo, "a");
    let id = add(&mut todo, "x");
    let task = todo.get_task(id).unwrap();
    assert_eq!(task.id, id);
    assert_eq!(task.description, "x");
    assert!(!task.completed);
}

#[test]
fn description_is_kept_as_given() {
    let mut todo = Todo::new();
    let id = add(&mut todo, "  padded \n");
    assert_eq!(todo.get_task(id).unwrap().description, "  padded \n");
    let empty = add(&mut todo, "");
    assert_eq!(todo.get_task(empty).unwrap().description, "");
}

#[test]
fn complete_is_idempotent() {
    let mut todo = Todo::new();
    let id = add(&mut todo, "x");
    assert!(todo.complete_task(id));
    assert!(todo.complete_task(id));
    assert!(todo.get_task(id).unwrap().completed);
}

#[test]
fn complete_keeps_position_and_others() {
    let mut todo = Todo::new();
    add(&mut todo, "a");
    add(&mut todo, "b");
    add(&mut todo, "c");
    assert!(todo.complete_task(1));
    let all = todo.get_tasks();
    let ids: Vec<u32> = all.iter().map(|t| t.id).collect();
    let done: Vec<bool> = all.iter().map(|t| t.completed).collect();
    assert_eq!(ids, vec![0, 1, 2]);
    assert_eq!(done, vec![false, true, false]);
}

#[test]
fn unknown_id_is_not_found() {
    let mut todo = Todo::new();
    add(&mut todo, "a");
    assert!(!todo.complete_task(7));
    assert!(!todo.remove_task(7));
    assert!(todo.get_task(7).is_none());
    assert_eq!(todo.get_tasks().len(), 1);
    assert!(!todo.get_tasks()[0].completed);
}

#[test]
fn removed_id_is_not_found() {
    let mut todo = Todo::new();
    let id = add(&mut todo, "a");
    assert!(todo.remove_task(id));
    assert!(!todo.complete_task(id));
    assert!(todo.get_task(id).is_none());
}

#[test]
fn remove_succeeds_once() {
    let mut todo = Todo::new();
    let id = add(&mut todo, "a");
    add(&mut todo, "b");
    assert!(todo.remove_task(id));
    assert!(!todo.remove_task(id));
    assert_eq!(todo.get_tasks().len(), 1);
}

#[test]
fn removed_id_is_never_reissued() {
    let mut todo = Todo::new();
    let a = add(&mut todo, "a");
    assert!(todo.remove_task(a));
    let b = add(&mut todo, "b");
    assert_eq!(b, 1);
    assert!(todo.get_task(a).is_none());
}

#[test]
fn list_length_and_order_follow_adds_and_removes() {
    let mut todo = Todo::new();
    for d in ["a", "b", "c", "d", "e"] {
        add(&mut todo, d);
    }
    assert!(todo.remove_task(1));
    assert!(todo.remove_task(3));
    assert!(!todo.remove_task(3));
    add(&mut todo, "f");
    let all = todo.get_tasks();
    assert_eq!(all.len(), 5 + 1 - 2);
    let ids: Vec<u32> = all.iter().map(|t| t.id).collect();
    let descs: Vec<&str> = all.iter().map(|t| t.description.as_str()).collect();
    assert_eq!(ids, vec![0, 2, 4, 5]);
    assert_eq!(descs, vec!["a", "c", "e", "f"]);
}

#[test]
fn buy_milk_scenario() {
    let mut todo = Todo::new();
    assert_eq!(add(&mut todo, "Buy milk"), 0);
    let all = todo.get_tasks();
    assert_eq!(all.len(), 1);
    assert_eq!(all[0].id, 0);
    assert_eq!(all[0].description, "Buy milk");
    assert!(!all[0].completed);
    assert!(todo.complete_task(0));
    let t = todo.get_task(0).unwrap();
    assert_eq!((t.id, t.description.as_str(), t.completed), (0, "Buy milk", true));
    assert!(todo.remove_task(0));
    assert!(todo.get_tasks().is_empty());
    assert!(todo.get_task(0).is_none());
}

#[test]
fn two_adds_give_zero_then_one() {
    let mut todo = Todo::new();
    assert_eq!(add(&mut todo, "same"), 0);
    assert_eq!(add(&mut todo, "same"), 1);
}

#[test]
fn list_is_a_copy() {
    let mut todo = Todo::new();
    add(&mut todo, "a");
    let mut snapshot = todo.get_tasks();
    snapshot[0].completed = true;
    snapshot.push(Task { id: 9, description: String::from("z"), completed: false });
    assert!(!todo.get_task(0).unwrap().completed);
    assert_eq!(todo.get_tasks().len(), 1);
}

#[test]
fn task_clone_keeps_fields() {
    let t = Task { id: 3, description: String::from("d"), completed: true };
    let c = t.clone();
    assert_eq!((c.id, c.description.as_str(), c.completed), (3, "d", true));
}
