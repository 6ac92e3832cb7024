use backend_rs::{BackendError, DataHandler, JSONHandler, Task, TaskInput, TaskList};

fn input(name: &str, owner: &str) -> TaskInput {
    TaskInput { name: name.to_string(), owner: owner.to_string() }
}

#[test]
fn task_to_json_exact() {
    let t = Task { id: 1, name: "write spec".to_string(), owner: "alice".to_string() };
    assert_eq!(t.to_json().unwrap(), r#"{"id":1,"name":"write spec","owner":"alice"}"#);
}

#[test]
fn task_to_json_escapes_strings() {
    let t = Task { id: 42, name: "say \"hi\"\n".to_string(), owner: "a\\b\u{1}".to_string() };
    assert_eq!(
        t.to_json().unwrap(),
        r#"{"id":42,"name":"say \"hi\"\n","owner":"a\\b\u0001"}"#
    );
}

#[test]
fn list_to_string_exact() {
    let mut list = TaskList::new();
    assert_eq!(list.to_string().unwrap(), r#"{"tasks":[]}"#);
    list.add(input("write spec", "alice"));
    list.add(input("review", "bob"));
    assert_eq!(
        list.to_string().unwrap(),
        r#"{"tasks":[{"id":1,"name":"write spec","owner":"alice"},{"id":2,"name":"review","owner":"bob"}]}"#
    );
}

#[test]
fn save_then_load_gives_same_tasks() {
    let handler = JSONHandler::new("/tmp/tasks.json");
    let mut list = TaskList::new();
    list.add(input("quote \" and \\ slash", "tab\there"));
    list.add(input("caf\u{e9} \u{1F600}", "ctl\u{1f}\u{8}\u{c}\r"));
    list.add(input("", ""));
    list.remove_by_id(1);
    let text = handler.save(&list).unwrap();
    let back = handler.load(Some(text));
    assert_eq!(back.tasks.len(), list.tasks.len());
    for (a, b) in back.tasks.iter().zip(list.tasks.iter()) {
        assert_eq!(a.id, b.id);
        assert_eq!(a.name, b.name);
        assert_eq!(a.owner, b.owner);
    }
}

#[test]
fn load_unreadable_file_is_empty() {
    let handler = JSONHandler::new("/no/such/file.json");
    assert!(handler.load(None).tasks.is_empty());
}

#[test]
fn load_invalid_json_is_empty() {
    let handler = JSONHandler::new("tasks.json");
    assert!(handler.load(Some("not json at all".to_string())).tasks.is_empty());
    assert!(handler.load(Some(r#"{"tasks":3}"#.to_string())).tasks.is_empty());
    assert!(handler.load(Some(r#"{"tasks":[]"#.to_string())).tasks.is_empty());
    assert!(handler.load(Some(String::new())).tasks.is_empty());
}

#[test]
fn from_json_allows_whitespace() {
    let text = " {\n  \"tasks\" : [ { \"id\" : 3 , \"name\" : \"a\" , \"owner\" : \"b\" } ,\n {\"id\":9,\"name\":\"c\",\"owner\":\"d\"} ]\n} \n";
    let list = TaskList::from_json(text).unwrap();
    assert_eq!(list.tasks.len(), 2);
    assert_eq!(list.tasks[0].id, 3);
    assert_eq!(list.tasks[0].name, "a");
    assert_eq!(list.tasks[1].id, 9);
    assert_eq!(list.tasks[1].owner, "d");
}

#[test]
fn from_json_decodes_escapes() {
    let text = r#"{"tasks":[{"id":1,"name":"A\/\"\\\b\f\n\r\t","owner":"é"}]}"#;
    let list = TaskList::from_json(text).unwrap();
    assert_eq!(list.tasks[0].name, "A/\"\\\u{8}\u{c}\n\r\t");
    assert_eq!(list.tasks[0].owner, "\u{e9}");
    let coded = TaskList::from_json(r#"{"tasks":[{"id":1,"name":"\u0041\u00e9\u20AC","owner":"\u0001"}]}"#).unwrap();
    assert_eq!(coded.tasks[0].name, "A\u{e9}\u{20ac}");
    assert_eq!(coded.tasks[0].owner, "\u{1}");
}

#[test]
fn from_json_rejects_bad_numbers_and_strings() {
    assert!(TaskList::from_json(r#"{"tasks":[{"id":01,"name":"a","owner":"b"}]}"#).is_none());
    assert!(TaskList::from_json(r#"{"tasks":[{"id":4294967296,"name":"a","owner":"b"}]}"#).is_none());
    assert!(TaskList::from_json(r#"{"tasks":[{"id":-1,"name":"a","owner":"b"}]}"#).is_none());
    assert!(TaskList::from_json("{\"tasks\":[{\"id\":1,\"name\":\"a\nb\",\"owner\":\"b\"}]}").is_none());
    assert!(TaskList::from_json(r#"{"tasks":[{"id":1,"name":"\ud800","owner":"b"}]}"#).is_none());
    assert!(TaskList::from_json(r#"{"tasks":[{"id":1,"name":"a","owner":"b"},]}"#).is_none());
    assert!(TaskList::from_json(r#"{"tasks":[]} x"#).is_none());
}

#[test]
fn from_json_largest_id() {
    let list = TaskList::from_json(r#"{"tasks":[{"id":4294967295,"name":"a","owner":"b"},{"id":0,"name":"c","owner":"d"}]}"#).unwrap();
    assert_eq!(list.tasks[0].id, u32::MAX);
    assert_eq!(list.tasks[1].id, 0);
    assert!(!list.can_add());
}

#[test]
fn from_json_keeps_duplicate_ids() {
    let list = TaskList::from_json(r#"{"tasks":[{"id":2,"name":"a","owner":"b"},{"id":2,"name":"c","owner":"d"}]}"#).unwrap();
    assert_eq!(list.tasks.len(), 2);
    assert_eq!(list.get_by_id(2).unwrap().name, "a");
}

#[test]
fn handler_keeps_path() {
    assert_eq!(JSONHandler::new("/var/data/tasks.json").path, "/var/data/tasks.json");
}

#[test]
fn error_messages() {
    assert_eq!(BackendError::InternalError.message(), "internal error");
    assert_eq!(BackendError::BadClientData.message(), "bad request");
    assert_eq!(BackendError::Timeout.message(), "timeout");
}

#[test]
fn from_json_takes_members_in_any_order() {
    let list = TaskList::from_json(r#"{"tasks":[{"name":"a","id":1,"owner":"b"},{"owner":"d","name":"c","id":2}]}"#).unwrap();
    assert_eq!(list.tasks.len(), 2);
    assert_eq!(list.tasks[0].id, 1);
    assert_eq!(list.tasks[0].name, "a");
    assert_eq!(list.tasks[0].owner, "b");
    assert_eq!(list.tasks[1].id, 2);
    assert_eq!(list.tasks[1].name, "c");
    assert_eq!(list.tasks[1].owner, "d");
    let handler = JSONHandler::new("tasks.json");
    let loaded = handler.load(Some(r#"{"tasks":[{"name":"a","id":1,"owner":"b"}]}"#.to_string()));
    assert_eq!(loaded.tasks.len(), 1);
    assert_eq!(loaded.tasks[0].id, 1);
}

#[test]
fn from_json_rejects_missing_or_repeated_members() {
    assert!(TaskList::from_json(r#"{"tasks":[{"id":1,"name":"a"}]}"#).is_none());
    assert!(TaskList::from_json(r#"{"tasks":[{"id":1,"name":"a","id":2,"owner":"b"}]}"#).is_none());
    assert!(TaskList::from_json(r#"{"tasks":[{}]}"#).is_none());
}

#[test]
fn from_json_decodes_surrogate_pairs() {
    let list = TaskList::from_json(r#"{"tasks":[{"id":1,"name":"\ud83d\ude00!","owner":"\uD83D\uDE00"}]}"#).unwrap();
    assert_eq!(list.tasks[0].name, "\u{1F600}!");
    assert_eq!(list.tasks[0].owner, "\u{1F600}");
    assert!(TaskList::from_json(r#"{"tasks":[{"id":1,"name":"\ude00","owner":"b"}]}"#).is_none());
    assert!(TaskList::from_json(r#"{"tasks":[{"id":1,"name":"\ud83dA","owner":"b"}]}"#).is_none());
    assert!(TaskList::from_json(r#"{"tasks":[{"id":1,"name":"\ud83d\u0041","owner":"b"}]}"#).is_none());
}

#[test]
fn get_task_json_found_and_missing() {
    let mut list = TaskList::new();
    list.add(input("write spec", "alice"));
    assert_eq!(list.get_task_json(1).unwrap(), r#"{"id":1,"name":"write spec","owner":"alice"}"#);
    assert_eq!(list.get_task_json(2), Err(BackendError::BadClientData));
}

#[test]
fn save_gives_list_text() {
    let handler = JSONHandler::new("tasks.json");
    let mut list = TaskList::new();
    assert_eq!(handler.save(&list).unwrap(), r#"{"tasks":[]}"#);
    list.add(input("a", "b"));
    assert_eq!(handler.save(&list).unwrap(), list.to_string().unwrap());
}
