use backend_rs::{Task, TaskInput, TaskList};

fn input(name: &str, owner: &str) -> TaskInput {
    TaskInput { name: name.to_string(), owner: owner.to_string() }
}

#[test]
fn scenario_add_remove_get() {
    let mut list = TaskList::new();
    let first = list.add(input("write spec", "alice"));
    assert_eq!(first.id, 1);
    assert_eq!(first.name, "write spec");
    assert_eq!(first.owner, "alice");
    let second = list.add(input("review", "bob"));
    assert_eq!(second.id, 2);
    assert_eq!(second.name, "review");
    assert_eq!(second.owner, "bob");
    list.remove_by_id(1);
    assert!(list.get_by_id(1).is_none());
    let found = list.get_by_id(2).unwrap();
    assert_eq!(found.id, 2);
    assert_eq!(found.name, "review");
    assert_eq!(found.owner, "bob");
}

#[test]
fn ids_increase_from_one() {
    let mut list = TaskList::new();
    for k in 1..=5u32 {
        let t = list.add(input("t", "o"));
        assert_eq!(t.id, k);
    }
    let ids: Vec<u32> = list.tasks.iter().map(|t| t.id).collect();
    assert_eq!(ids, vec![1, 2, 3, 4, 5]);
}

#[test]
fn next_id_of_empty_is_one() {
    assert_eq!(TaskList::new().next_id(), 1);
}

#[test]
fn next_id_follows_largest_id() {
    let list = TaskList {
        tasks: vec![
            Task { id: 7, name: "a".to_string(), owner: "x".to_string() },
            Task { id: 3, name: "b".to_string(), owner: "y".to_string() },
        ],
    };
    assert_eq!(list.next_id(), 8);
}

#[test]
fn removing_largest_id_frees_it() {
    let mut list = TaskList::new();
    list.add(input("a", "x"));
    list.add(input("b", "y"));
    list.remove_by_id(2);
    let t = list.add(input("c", "z"));
    assert_eq!(t.id, 2);
}

#[test]
fn remove_absent_id_changes_nothing() {
    let mut list = TaskList::new();
    list.add(input("a", "x"));
    list.add(input("b", "y"));
    list.remove_by_id(9);
    assert_eq!(list.tasks.len(), 2);
    assert_eq!(list.tasks[0].id, 1);
    assert_eq!(list.tasks[0].name, "a");
    assert_eq!(list.tasks[1].id, 2);
    assert_eq!(list.tasks[1].owner, "y");
}

#[test]
fn remove_keeps_order_of_the_rest() {
    let mut list = TaskList::new();
    list.add(input("a", "x"));
    list.add(input("b", "y"));
    list.add(input("c", "z"));
    list.remove_by_id(2);
    let names: Vec<&str> = list.tasks.iter().map(|t| t.name.as_str()).collect();
    assert_eq!(names, vec!["a", "c"]);
}

#[test]
fn get_after_add_returns_submitted_fields() {
    let mut list = TaskList::new();
    list.add(input("a", "x"));
    let t = list.add(input("deploy", "carol"));
    let found = list.get_by_id(t.id).unwrap();
    assert_eq!(found.id, 2);
    assert_eq!(found.name, "deploy");
    assert_eq!(found.owner, "carol");
}

#[test]
fn get_returns_first_of_equal_ids() {
    let list = TaskList {
        tasks: vec![
            Task { id: 4, name: "first".to_string(), owner: "x".to_string() },
            Task { id: 4, name: "second".to_string(), owner: "y".to_string() },
        ],
    };
    assert_eq!(list.get_by_id(4).unwrap().name, "first");
    assert!(list.get_by_id(5).is_none());
}

#[test]
fn can_add_below_largest_id() {
    let mut list = TaskList::new();
    assert!(list.can_add());
    list.tasks.push(Task { id: u32::MAX, name: "m".to_string(), owner: "o".to_string() });
    assert!(!list.can_add());
    list.tasks[0].id = u32::MAX - 1;
    assert!(list.can_add());
    assert_eq!(list.next_id(), u32::MAX);
}
