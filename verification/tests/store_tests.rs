use voido::models::{Subtask, Todo, TodoError};
use voido::store::DBtodo;
use voido::tasks::{add_todo, append_subtask, build_todo, normalize_priority, parse_subtask};

fn task(text: &str, topic: &str, priority: &str) -> Todo {
    build_todo(
        text.to_string(),
        Some(topic.to_string()),
        Some(priority.to_string()),
        None,
        None,
        None,
        Vec::new(),
        "01-01-25".to_string(),
    )
    .unwrap()
}

#[test]
fn insert_then_list_returns_the_task() {
    let mut db = DBtodo::new_in_memory().unwrap();
    let id = db.add_todo(&task("Ship release", "Work", "high")).unwrap();
    assert_eq!(id, 1);
    let listed = db.get_todos().unwrap();
    assert_eq!(listed.len(), 1);
    assert_eq!(listed[0].id, 1);
    assert_eq!(listed[0].text, "Ship release");
    assert_eq!(listed[0].topic, "Work");
    assert_eq!(listed[0].priority, "High");
    assert_eq!(listed[0].status, "Pending");
    assert!(listed[0].subtasks.is_empty());
}

#[test]
fn inserted_ids_are_positive_and_unique() {
    let mut db = DBtodo::new_in_memory().unwrap();
    let a = db.add_todo(&task("One", "General", "low")).unwrap();
    let b = db.add_todo(&task("Two", "General", "low")).unwrap();
    assert!(a >= 1 && b >= 1);
    assert_ne!(a, b);
    // deleting the highest id never frees it for reuse
    assert!(db.delete_todo(b).unwrap());
    let c = db.add_todo(&task("Three", "General", "low")).unwrap();
    assert_ne!(c, b);
    assert!(c > b);
}

#[test]
fn subtasks_are_listed_in_insertion_order() {
    let mut db = DBtodo::new_in_memory().unwrap();
    let mut t = task("Plan", "Home", "medium");
    t.subtasks = vec![
        Subtask { todo_id: 0, subtask_id: 0, text: "first".to_string(), status: "Pending".to_string() },
        Subtask { todo_id: 0, subtask_id: 0, text: "second".to_string(), status: "Pending".to_string() },
        Subtask { todo_id: 0, subtask_id: 0, text: "third".to_string(), status: "Pending".to_string() },
    ];
    let id = db.add_todo(&t).unwrap();
    let listed = db.get_todos().unwrap();
    let texts: Vec<&str> = listed[0].subtasks.iter().map(|s| s.text.as_str()).collect();
    assert_eq!(texts, vec!["first", "second", "third"]);
    let subs = db.get_subtasks(id).unwrap();
    assert_eq!(subs, vec!["first", "second", "third"]);
    assert!(listed[0].subtasks[0].subtask_id < listed[0].subtasks[1].subtask_id);
}

#[test]
fn schema_creation_is_idempotent() {
    let mut db = DBtodo::new_in_memory().unwrap();
    db.add_todo(&task("Keep me", "General", "low")).unwrap();
    let before = db.get_todos().unwrap();
    db.create_schema().unwrap();
    db.create_schema().unwrap();
    let after = db.get_todos().unwrap();
    assert_eq!(before.len(), after.len());
    assert_eq!(before[0].text, after[0].text);
    assert_eq!(before[0].id, after[0].id);
}

#[test]
fn append_subtask_to_task_one() {
    let mut db = DBtodo::new_in_memory().unwrap();
    db.add_todo(&task("Groceries", "Home", "low")).unwrap();
    let sid = db.append_subtask(1, "buy milk".to_string()).unwrap();
    assert!(sid >= 1);
    let listed = db.get_todos().unwrap();
    assert_eq!(listed[0].subtasks.len(), 1);
    assert_eq!(listed[0].subtasks[0].text, "buy milk");
    assert_eq!(listed[0].subtasks[0].status, "Pending");
}

#[test]
fn append_subtask_to_missing_task_is_not_found() {
    let mut db = DBtodo::new_in_memory().unwrap();
    let before = db.get_todos().unwrap();
    match db.append_subtask(7, "orphan".to_string()) {
        Err(TodoError::NotFound) => {},
        _ => panic!("expected a missing-task rejection"),
    }
    match append_subtask(&mut db, -3, "orphan".to_string()) {
        Err(TodoError::NotFound) => {},
        _ => panic!("expected a missing-task rejection"),
    }
    assert_eq!(db.get_todos().unwrap().len(), before.len());
}

#[test]
fn delete_of_missing_id_changes_nothing() {
    let mut db = DBtodo::new_in_memory().unwrap();
    let id = db.add_todo(&task("Keeper", "General", "low")).unwrap();
    db.append_subtask(id, "kept sub".to_string()).unwrap();
    let before = db.get_todos().unwrap();
    assert!(!db.delete_todo(id + 50).unwrap());
    let after = db.get_todos().unwrap();
    assert_eq!(before.len(), after.len());
    assert_eq!(before[0].subtasks.len(), after[0].subtasks.len());
    assert_eq!(before[0].subtasks[0].text, after[0].subtasks[0].text);
}

#[test]
fn update_status_of_missing_id_changes_nothing() {
    let mut db = DBtodo::new_in_memory().unwrap();
    db.add_todo(&task("Stable", "General", "low")).unwrap();
    let before = db.get_todos().unwrap();
    let changed = db.update_todo(42, "Done".to_string()).unwrap();
    assert!(!changed);
    let after = db.get_todos().unwrap();
    assert_eq!(before.len(), after.len());
    assert_eq!(before[0].status, after[0].status);
}

#[test]
fn update_status_and_priority() {
    let mut db = DBtodo::new_in_memory().unwrap();
    let id = db.add_todo(&task("Work it", "Work", "low")).unwrap();
    assert!(db.update_todo(id, "Ongoing".to_string()).unwrap());
    assert!(db.update_priority(id, "High".to_string()).unwrap());
    let listed = db.get_todos().unwrap();
    assert_eq!(listed[0].status, "Ongoing");
    assert_eq!(listed[0].priority, "High");
}

#[test]
fn delete_cascades_to_subtasks() {
    let mut db = DBtodo::new_in_memory().unwrap();
    let id = db.add_todo(&task("Parent", "General", "low")).unwrap();
    db.append_subtask(id, "child".to_string()).unwrap();
    let other = db.add_todo(&task("Other", "General", "low")).unwrap();
    db.append_subtask(other, "kept".to_string()).unwrap();
    assert!(db.delete_todo(id).unwrap());
    let listed = db.get_todos().unwrap();
    assert_eq!(listed.len(), 1);
    assert_eq!(listed[0].subtasks.len(), 1);
    assert_eq!(listed[0].subtasks[0].text, "kept");
    assert!(!db.delete_todo(id).unwrap());
}

#[test]
fn toggling_subtask_status_twice_restores_the_store() {
    let mut db = DBtodo::new_in_memory().unwrap();
    let id = db.add_todo(&task("Round", "General", "low")).unwrap();
    let sid = db.append_subtask(id, "trip".to_string()).unwrap();
    let before = db.get_todos().unwrap();
    assert!(db.change_subtask_status(id, sid, "Done".to_string()).unwrap());
    assert_eq!(db.get_todos().unwrap()[0].subtasks[0].status, "Done");
    assert!(db.change_subtask_status(id, sid, "Pending".to_string()).unwrap());
    let after = db.get_todos().unwrap();
    assert_eq!(before[0].subtasks[0].status, after[0].subtasks[0].status);
    assert_eq!(before[0].subtasks[0].subtask_id, after[0].subtasks[0].subtask_id);
}

#[test]
fn delete_subtask_by_id() {
    let mut db = DBtodo::new_in_memory().unwrap();
    let id = db.add_todo(&task("Two subs", "General", "low")).unwrap();
    let first = db.append_subtask(id, "one".to_string()).unwrap();
    db.append_subtask(id, "two".to_string()).unwrap();
    assert!(db.delete_subtask(first).unwrap());
    let listed = db.get_todos().unwrap();
    assert_eq!(listed[0].subtasks.len(), 1);
    assert_eq!(listed[0].subtasks[0].text, "two");
    assert!(!db.delete_subtask(first).unwrap());
}

#[test]
fn clear_and_flush_empty_the_store() {
    let mut db = DBtodo::new_in_memory().unwrap();
    db.add_todo(&task("Gone", "General", "low")).unwrap();
    assert!(db.clear_all_todos().unwrap());
    assert!(db.get_todos().unwrap().is_empty());
    assert!(!db.flush_db().unwrap());
}

#[test]
fn bulk_replace_swaps_all_content() {
    let mut db = DBtodo::new_in_memory().unwrap();
    db.add_todo(&task("Old", "General", "low")).unwrap();
    let incoming = vec![task("New one", "Work", "high"), task("New two", "Home", "medium")];
    db.bulk_replace(&incoming).unwrap();
    let listed = db.get_todos().unwrap();
    assert_eq!(listed.len(), 2);
    assert_eq!(listed[0].text, "New one");
    assert_eq!(listed[1].text, "New two");
    assert_ne!(listed[0].id, listed[1].id);
}

#[test]
fn credentials_round_trip() {
    let mut db = DBtodo::new_in_memory().unwrap();
    assert!(db.get_api_credentials().is_err());
    db.set_api_credentials("SECRET-REDACTED".to_string()).unwrap();
    assert_eq!(db.get_api_credentials().unwrap(), "SECRET-REDACTED");
    db.set_api_credentials("other".to_string()).unwrap();
    assert_eq!(db.get_api_credentials().unwrap(), "other");
}

#[test]
fn add_todo_command_normalizes_and_stores() {
    let mut db = DBtodo::new_in_memory().unwrap();
    let id = add_todo(
        &mut db,
        "ship it".to_string(),
        None,
        Some("HIGH".to_string()),
        Some("ada".to_string()),
        None,
        None,
        vec!["step one".to_string()],
    )
    .unwrap();
    let listed = db.get_todos().unwrap();
    assert_eq!(listed[0].id, id);
    assert_eq!(listed[0].text, "Ship it");
    assert_eq!(listed[0].topic, "General");
    assert_eq!(listed[0].priority, "High");
    assert_eq!(listed[0].owner, "Ada");
    assert_eq!(listed[0].due, "none due");
    assert_eq!(listed[0].desc, "No description provided");
    assert_eq!(listed[0].subtasks.len(), 1);
    assert_eq!(listed[0].subtasks[0].text, "step one");
}

#[test]
fn add_todo_rejects_a_bad_priority() {
    let mut db = DBtodo::new_in_memory().unwrap();
    match add_todo(&mut db, "x".to_string(), None, Some("urgent".to_string()), None, None, None, Vec::new()) {
        Err(TodoError::Validation(msg)) => {
            assert_eq!(msg, "Priority must be 'medium', 'high', or 'low'.");
        },
        _ => panic!("expected a validation rejection"),
    }
    // a missing priority falls back to a word no level matches
    assert!(matches!(
        add_todo(&mut db, "x".to_string(), None, None, None, None, None, Vec::new()),
        Err(TodoError::Validation(_))
    ));
    assert!(db.get_todos().unwrap().is_empty());
}

#[test]
fn priority_keywords_normalize() {
    assert_eq!(normalize_priority(&"low".to_string()), Some("Low".to_string()));
    assert_eq!(normalize_priority(&"MEDIUM".to_string()), Some("Medium".to_string()));
    assert_eq!(normalize_priority(&"hIgH".to_string()), Some("High".to_string()));
    assert_eq!(normalize_priority(&"normal".to_string()), None);
}

#[test]
fn parse_subtask_reads_id_and_text() {
    assert_eq!(parse_subtask("2:\"my task\""), Ok((2, "my task".to_string())));
    assert_eq!(parse_subtask("10:plain"), Ok((10, "plain".to_string())));
    assert_eq!(parse_subtask("-4:neg"), Ok((-4, "neg".to_string())));
    assert_eq!(parse_subtask("+7:pos"), Ok((7, "pos".to_string())));
    assert_eq!(parse_subtask("1:a:b"), Ok((1, "a:b".to_string())));
    assert_eq!(parse_subtask("no colon"), Err("Expected format `ID:TEXT`".to_string()));
    assert_eq!(parse_subtask("x:abc"), Err("ID must be a number".to_string()));
    assert_eq!(parse_subtask(":abc"), Err("ID must be a number".to_string()));
    assert_eq!(parse_subtask("99999999999:t"), Err("ID must be a number".to_string()));
    assert_eq!(parse_subtask("2147483647:max"), Ok((2147483647, "max".to_string())));
    assert_eq!(parse_subtask("-2147483648:min"), Ok((-2147483648, "min".to_string())));
    assert_eq!(parse_subtask("2147483648:over"), Err("ID must be a number".to_string()));
}
