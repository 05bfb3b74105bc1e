use voido::controller::{App, Flow, InputMode, Modal};
use voido::models::Todo;
use voido::search::Key;
use voido::store::DBtodo;
use voido::tasks::build_todo;

fn task(text: &str, topic: &str) -> Todo {
    build_todo(
        text.to_string(),
        Some(topic.to_string()),
        Some("low".to_string()),
        None,
        None,
        None,
        Vec::new(),
        "01-01-25".to_string(),
    )
    .unwrap()
}

fn setup(texts: &[(&str, &str)]) -> (DBtodo, App) {
    let mut db = DBtodo::new_in_memory().unwrap();
    for (text, topic) in texts {
        db.add_todo(&task(text, topic)).unwrap();
    }
    let app = App::new(db.get_todos().unwrap());
    (db, app)
}

fn type_word(app: &mut App, db: &mut DBtodo, word: &str) {
    for c in word.chars() {
        app.handle_key(db, Key::Char(c)).unwrap();
    }
}

#[test]
fn query_filters_to_the_matching_topic() {
    let (mut db, mut app) = setup(&[("Clean up", "Home"), ("Ship release", "Work")]);
    assert_eq!(app.filtered_indices, vec![0, 1]);
    app.handle_key(&mut db, Key::Char('i')).unwrap();
    assert!(matches!(app.modal, Modal::Searching));
    assert!(matches!(app.input_mode, InputMode::Search));
    type_word(&mut app, &mut db, "work");
    assert_eq!(app.filtered_indices, vec![1]);
    assert_eq!(app.selected, Some(0));
    // cancelling the search restores the full view
    app.handle_key(&mut db, Key::Esc).unwrap();
    assert!(matches!(app.modal, Modal::Browsing));
    assert_eq!(app.filtered_indices, vec![0, 1]);
}

#[test]
fn filtered_indices_are_a_subsequence_of_the_identity() {
    let (mut db, mut app) = setup(&[("alpha", "One"), ("beta", "Two"), ("alp beta", "Three")]);
    app.handle_key(&mut db, Key::Char('i')).unwrap();
    type_word(&mut app, &mut db, "alp");
    let full: Vec<usize> = (0..app.todos.len()).collect();
    let mut walk = full.iter();
    for idx in &app.filtered_indices {
        assert!(walk.any(|f| f == idx), "filtering reordered or invented an index");
    }
}

#[test]
fn cursor_wraps_both_ways() {
    let (mut db, mut app) = setup(&[("a", "T"), ("b", "T"), ("c", "T")]);
    assert_eq!(app.selected, Some(0));
    app.handle_key(&mut db, Key::Up).unwrap();
    assert_eq!(app.selected, Some(2));
    app.handle_key(&mut db, Key::Down).unwrap();
    assert_eq!(app.selected, Some(0));
    app.handle_key(&mut db, Key::Char('j')).unwrap();
    assert_eq!(app.selected, Some(1));
    app.handle_key(&mut db, Key::Char('k')).unwrap();
    assert_eq!(app.selected, Some(0));
}

#[test]
fn deleting_the_last_task_clears_the_cursor() {
    let (mut db, mut app) = setup(&[("only", "T")]);
    app.handle_key(&mut db, Key::Char('x')).unwrap();
    assert!(matches!(app.modal, Modal::DeleteConfirm));
    app.handle_key(&mut db, Key::Char('y')).unwrap();
    assert!(matches!(app.modal, Modal::Browsing));
    assert_eq!(app.selected, None);
    assert!(app.todos.is_empty());
    assert!(db.get_todos().unwrap().is_empty());
}

#[test]
fn deleting_a_non_last_task_keeps_the_cursor_position() {
    let (mut db, mut app) = setup(&[("a", "T"), ("b", "T"), ("c", "T")]);
    app.handle_key(&mut db, Key::Char('j')).unwrap(); // select index 1 (b)
    app.handle_key(&mut db, Key::Char('x')).unwrap();
    app.handle_key(&mut db, Key::Char('y')).unwrap();
    assert_eq!(app.selected, Some(1));
    assert_eq!(app.todos.len(), 2);
    // the task that shifted into the old position is now under the cursor
    assert_eq!(app.todos[app.filtered_indices[1]].text, "C");
    assert_eq!(db.get_todos().unwrap().len(), 2);
}

#[test]
fn status_keys_write_through_and_patch_the_cache() {
    let (mut db, mut app) = setup(&[("a", "T")]);
    app.handle_key(&mut db, Key::Char('d')).unwrap();
    assert_eq!(app.todos[0].status, "Done");
    assert_eq!(db.get_todos().unwrap()[0].status, "Done");
    app.handle_key(&mut db, Key::Char('o')).unwrap();
    assert_eq!(app.todos[0].status, "Ongoing");
    app.handle_key(&mut db, Key::Char('p')).unwrap();
    assert_eq!(app.todos[0].status, "Pending");
    assert_eq!(db.get_todos().unwrap()[0].status, "Pending");
}

#[test]
fn priority_overlay_applies_a_choice() {
    let (mut db, mut app) = setup(&[("a", "T")]);
    app.handle_key(&mut db, Key::Char('P')).unwrap();
    assert!(matches!(app.modal, Modal::PriorityChange));
    app.handle_key(&mut db, Key::Char('H')).unwrap();
    assert!(matches!(app.modal, Modal::Browsing));
    assert_eq!(app.todos[0].priority, "High");
    assert_eq!(db.get_todos().unwrap()[0].priority, "High");
}

#[test]
fn update_of_missing_id_is_reported_and_changes_nothing() {
    let (mut db, mut app) = setup(&[("a", "T")]);
    let before = db.get_todos().unwrap();
    let r = app.change_todo_status(&mut db, 99, "Done".to_string());
    assert!(matches!(r, Err(voido::models::TodoError::NotFound)));
    let after = db.get_todos().unwrap();
    assert_eq!(before[0].status, after[0].status);
    assert_eq!(app.todos[0].status, "Pending");
}

#[test]
fn detail_view_opens_and_navigates_subtasks() {
    let (mut db, mut app) = setup(&[("parent", "T")]);
    db.append_subtask(1, "one".to_string()).unwrap();
    db.append_subtask(1, "two".to_string()).unwrap();
    app.load_todo(&db, 1).unwrap();
    app.handle_key(&mut db, Key::Enter).unwrap();
    assert!(matches!(app.modal, Modal::DetailView));
    assert_eq!(app.subtask_selected, None);
    app.handle_key(&mut db, Key::Down).unwrap();
    assert_eq!(app.subtask_selected, Some(0));
    app.handle_key(&mut db, Key::Down).unwrap();
    assert_eq!(app.subtask_selected, Some(1));
    app.handle_key(&mut db, Key::Down).unwrap();
    assert_eq!(app.subtask_selected, Some(1));
    app.handle_key(&mut db, Key::Up).unwrap();
    assert_eq!(app.subtask_selected, Some(0));
    app.handle_key(&mut db, Key::Esc).unwrap();
    assert!(matches!(app.modal, Modal::Browsing));
    assert_eq!(app.subtask_selected, None);
    assert!(app.selected_todo.is_none());
}

#[test]
fn toggling_a_subtask_twice_restores_store_and_cache() {
    let (mut db, mut app) = setup(&[("parent", "T")]);
    db.append_subtask(1, "flip".to_string()).unwrap();
    app.load_todo(&db, 1).unwrap();
    app.handle_key(&mut db, Key::Enter).unwrap();
    app.handle_key(&mut db, Key::Down).unwrap();
    let cache_before = app.todos[0].subtasks[0].status.clone();
    let store_before = db.get_todos().unwrap()[0].subtasks[0].status.clone();
    app.handle_key(&mut db, Key::Char('d')).unwrap();
    assert_eq!(app.todos[0].subtasks[0].status, "Done");
    assert_eq!(db.get_todos().unwrap()[0].subtasks[0].status, "Done");
    app.handle_key(&mut db, Key::Char('d')).unwrap();
    assert_eq!(app.todos[0].subtasks[0].status, cache_before);
    assert_eq!(db.get_todos().unwrap()[0].subtasks[0].status, store_before);
}

#[test]
fn deleting_a_subtask_removes_it_everywhere() {
    let (mut db, mut app) = setup(&[("parent", "T")]);
    db.append_subtask(1, "one".to_string()).unwrap();
    db.append_subtask(1, "two".to_string()).unwrap();
    app.load_todo(&db, 1).unwrap();
    app.handle_key(&mut db, Key::Enter).unwrap();
    app.handle_key(&mut db, Key::Down).unwrap();
    app.handle_key(&mut db, Key::Char('x')).unwrap();
    assert!(matches!(app.modal, Modal::DetailView));
    assert_eq!(app.todos[0].subtasks.len(), 1);
    assert_eq!(app.todos[0].subtasks[0].text, "two");
    assert_eq!(db.get_todos().unwrap()[0].subtasks.len(), 1);
    assert_eq!(app.subtask_selected, Some(0));
    app.handle_key(&mut db, Key::Char('x')).unwrap();
    assert_eq!(app.subtask_selected, None);
    assert!(db.get_todos().unwrap()[0].subtasks.is_empty());
}

#[test]
fn notes_editing_commits_into_the_cache() {
    let (mut db, mut app) = setup(&[("annotated", "T")]);
    app.handle_key(&mut db, Key::Enter).unwrap();
    app.handle_key(&mut db, Key::Char('n')).unwrap();
    assert!(app.editing_notes);
    type_word(&mut app, &mut db, "remember");
    app.handle_key(&mut db, Key::Esc).unwrap();
    assert!(!app.editing_notes);
    assert!(matches!(app.modal, Modal::DetailView));
    assert_eq!(app.selected_todo.as_ref().unwrap().notes, "remember");
    assert_eq!(app.todos[0].notes, "remember");
    // the filter searches notes
    app.handle_key(&mut db, Key::Esc).unwrap();
    app.handle_key(&mut db, Key::Char('i')).unwrap();
    type_word(&mut app, &mut db, "remember");
    assert_eq!(app.filtered_indices, vec![0]);
}

#[test]
fn search_commit_returns_to_browsing_with_the_filter_kept() {
    let (mut db, mut app) = setup(&[("Clean", "Home"), ("Ship", "Work")]);
    app.handle_key(&mut db, Key::Char('i')).unwrap();
    type_word(&mut app, &mut db, "ship");
    app.handle_key(&mut db, Key::Enter).unwrap();
    assert!(matches!(app.modal, Modal::Browsing));
    assert_eq!(app.filtered_indices, vec![1]);
    assert_eq!(app.selected, Some(0));
    // opening the committed selection shows the match
    app.handle_key(&mut db, Key::Enter).unwrap();
    assert!(matches!(app.modal, Modal::DetailView));
    assert_eq!(app.selected_todo.as_ref().unwrap().text, "Ship");
}

#[test]
fn overlays_are_exclusive_and_close_to_browsing() {
    let (mut db, mut app) = setup(&[("a", "T")]);
    app.handle_key(&mut db, Key::Char('\\')).unwrap();
    assert!(matches!(app.modal, Modal::MainMenu));
    app.handle_key(&mut db, Key::Char('x')).unwrap();
    assert!(matches!(app.modal, Modal::MainMenu));
    app.handle_key(&mut db, Key::Esc).unwrap();
    assert!(matches!(app.modal, Modal::Browsing));
    app.handle_key(&mut db, Key::Char('x')).unwrap();
    assert!(matches!(app.modal, Modal::DeleteConfirm));
    app.handle_key(&mut db, Key::Char('n')).unwrap();
    assert!(matches!(app.modal, Modal::Browsing));
    assert_eq!(app.todos.len(), 1);
}

#[test]
fn quit_key_quits_only_outside_text_input() {
    let (mut db, mut app) = setup(&[("a", "T")]);
    assert!(matches!(app.handle_key(&mut db, Key::Char('q')), Ok(Flow::Quit)));
    app.handle_key(&mut db, Key::Char('i')).unwrap();
    assert!(matches!(app.handle_key(&mut db, Key::Char('q')), Ok(Flow::Continue)));
    app.handle_key(&mut db, Key::Esc).unwrap();
    assert!(matches!(app.handle_key(&mut db, Key::Char('q')), Ok(Flow::Quit)));
}

#[test]
fn empty_list_starts_without_a_cursor() {
    let (mut db, mut app) = setup(&[]);
    assert_eq!(app.selected, None);
    app.handle_key(&mut db, Key::Down).unwrap();
    assert_eq!(app.selected, None);
    // confirming a delete on an empty list is a no-op
    app.handle_key(&mut db, Key::Char('x')).unwrap();
    assert!(matches!(app.modal, Modal::Browsing));
}
