use voido::cli::Cli;
use voido::colors::Colors;
use voido::gitsync::{AuthMethod, GitHubSync};
use voido::models::{Todo, TodoError, chars_to_string, string_to_chars};
use voido::search::{FuzzySearch, InputField, Key, build_blob};
use voido::settings::AppConfig;
use voido::sheet::{cells_to_todo, export_headers, todo_to_cells};
use voido::store::ConfigDir;
use voido::tasks::build_todo;
use voido::text::{capitalize_first, string_eq, to_lowercase_ascii, usize_to_string};
use voido::ui::{Rect, Stats, calculate_stats, centered_rect, dynamic_rect};

fn task(text: &str, topic: &str, priority: &str) -> Todo {
    build_todo(
        text.to_string(),
        Some(topic.to_string()),
        Some(priority.to_string()),
        None,
        None,
        None,
        Vec::new(),
        "01-01-25".to_string(),
    )
    .unwrap()
}

#[test]
fn decimal_rendering_is_exact() {
    assert_eq!(usize_to_string(0), "0");
    assert_eq!(usize_to_string(7), "7");
    assert_eq!(usize_to_string(10), "10");
    assert_eq!(usize_to_string(1234567), "1234567");
}

#[test]
fn capitalization_and_case_folding() {
    assert_eq!(capitalize_first(&"hello world".to_string()), "Hello world");
    assert_eq!(capitalize_first(&"".to_string()), "");
    assert_eq!(capitalize_first(&"9 lives".to_string()), "9 lives");
    assert_eq!(to_lowercase_ascii(&"MiXeD 42!".to_string()), "mixed 42!");
    assert!(string_eq(&"same".to_string(), "same"));
    assert!(!string_eq(&"same".to_string(), "other"));
    let chars = string_to_chars("round trip");
    assert_eq!(chars_to_string(&chars), "round trip");
}

#[test]
fn error_messages_carry_their_text() {
    assert_eq!(TodoError::Validation("bad".to_string()).message(), "bad");
    assert_eq!(TodoError::Store("io".to_string()).message(), "io");
    assert_eq!(TodoError::NotFound.message(), "not found");
}

#[test]
fn colors_render_their_rgb_triples() {
    assert_eq!(Colors::Light.get_color(), "(0, 0, 0)");
    assert_eq!(Colors::Dark.get_color(), "(255, 255, 255)");
    assert_eq!(Colors::Purple.get_color(), "(128, 0, 128)");
    assert_eq!(Colors::Blue.get_color(), "(0, 0, 255)");
    assert_eq!(Colors::Green.get_color(), "(0, 255, 0)");
    assert_eq!(Colors::Red.get_color(), "(255, 0, 0)");
    assert_eq!(Colors::Orange.get_color(), "(255, 165, 0)");
    assert_eq!(Colors::Yellow.get_color(), "(255, 255, 0)");
}

#[test]
fn default_config_has_the_nine_columns() {
    let c = AppConfig::create_default_config();
    assert_eq!(c.api_key, "");
    assert!(matches!(c.main_color, Colors::Light));
    assert!(matches!(c.secondary_color, Colors::Dark));
    assert!(matches!(c.accent_color, Colors::Blue));
    let cols: Vec<&str> = c.columns.iter().map(|s| s.as_str()).collect();
    assert_eq!(cols, vec!["ID", "PRIORITY", "TOPIC", "TODO", "SUBs", "CREATED", "DUE DATE", "STATUS", "OWNER"]);
}

#[test]
fn cli_default_is_all_off() {
    let c = Cli::default();
    assert!(!c.list && !c.export && !c.print && !c.clear && !c.flush);
    assert!(c.add.is_none() && c.priority.is_none() && c.delete.is_none());
    assert!(c.subtasks.is_empty());
}

#[test]
fn auth_method_follows_the_remote_url() {
    assert!(matches!(
        GitHubSync::detect_auth_method(&"git@github.com:ada/todos.git".to_string()),
        AuthMethod::SSH
    ));
    assert!(matches!(
        GitHubSync::detect_auth_method(&"https://github.com/ada/todos.git".to_string()),
        AuthMethod::HTTPS
    ));
    assert!(matches!(
        GitHubSync::detect_auth_method(&"ssh://elsewhere/repo".to_string()),
        AuthMethod::Unknown
    ));
}

#[test]
fn sync_decisions_read_command_output() {
    assert!(!GitHubSync::commit_needed(&"".to_string()));
    assert!(GitHubSync::commit_needed(&" M file".to_string()));
    assert!(GitHubSync::push_needed(&"## main...origin/main [ahead 2]".to_string()));
    assert!(GitHubSync::push_needed(&"Initial commit".to_string()));
    assert!(!GitHubSync::push_needed(&"## main...origin/main".to_string()));
    let sync = GitHubSync::new("/tmp/cfg".to_string(), "todos".to_string(), "ada".to_string());
    assert_eq!(sync.repo_name, "todos");
    assert!(!GitHubSync::get_auth_help_message(&AuthMethod::SSH).is_empty());
}

#[test]
fn stats_count_by_status() {
    let mut a = task("a", "T", "low");
    a.status = "Done".to_string();
    let b = task("b", "T", "low");
    let mut c = task("c", "T", "low");
    c.status = "Ongoing".to_string();
    let todos = vec![a, b, c];
    let s: Stats = calculate_stats(&todos);
    assert_eq!(s.total, 3);
    assert_eq!(s.done, 1);
    assert_eq!(s.ongoing, 1);
    assert_eq!(s.pending, 1);
}

#[test]
fn rect_helpers_center_and_clamp() {
    let area = Rect { x: 0, y: 0, width: 100, height: 40 };
    let r = dynamic_rect(50, 50, area);
    assert_eq!((r.width, r.height), (50, 20));
    assert_eq!((r.x, r.y), (25, 10));
    let tiny = dynamic_rect(1, 1, area);
    assert_eq!((tiny.width, tiny.height), (10, 8));
    let c = centered_rect(45, 25, area);
    assert_eq!((c.width, c.height), (45, 10));
    assert_eq!((c.x, c.y), (27, 15));
}

#[test]
fn export_cells_follow_the_columns() {
    let headers = export_headers(2);
    let hs: Vec<&str> = headers.iter().map(|s| s.as_str()).collect();
    assert_eq!(
        hs,
        vec!["ID", "PRIORITY", "TOPIC", "TODO", "DESCRIPTION", "CREATED", "DUE DATE", "STATUS", "OWNER", "Subtask 1", "Subtask 2"]
    );
    let mut t = task("Pack", "Travel", "low");
    t.id = 3;
    t.due = "".to_string();
    t.subtasks.push(voido::models::Subtask {
        todo_id: 3,
        subtask_id: 1,
        text: "socks".to_string(),
        status: "Pending".to_string(),
    });
    let cells = todo_to_cells(&t);
    let cs: Vec<&str> = cells.iter().map(|s| s.as_str()).collect();
    assert_eq!(cs, vec!["3", "Low", "Travel", "Pack", "No description provided", "01-01-25", "-", "Pending", "You", "socks"]);
}

#[test]
fn imported_cells_become_a_task() {
    let cells: Vec<String> = vec!["9", "High", "Work", "Ship", "desc", "01-01-25", "-", "Pending", "You", "one", "", "two"]
        .into_iter()
        .map(|s| s.to_string())
        .collect();
    let t = cells_to_todo(&cells).unwrap();
    assert_eq!(t.id, 0);
    assert_eq!(t.priority, "High");
    assert_eq!(t.text, "Ship");
    assert_eq!(t.subtasks.len(), 2);
    assert_eq!(t.subtasks[0].text, "one");
    assert_eq!(t.subtasks[1].text, "two");
    let short: Vec<String> = vec!["only".to_string()];
    assert!(cells_to_todo(&short).is_none());
}

#[test]
fn input_field_edits_text_with_a_cursor() {
    let mut f = InputField::new("Search");
    assert!(!f.handle_event(Key::Char('a')));
    f.focus();
    assert!(f.handle_event(Key::Char('a')));
    assert!(f.handle_event(Key::Char('b')));
    assert!(f.handle_event(Key::Left));
    assert!(f.handle_event(Key::Char('x')));
    assert_eq!(f.text(), "axb");
    assert!(f.handle_event(Key::Backspace));
    assert_eq!(f.text(), "ab");
    assert!(f.handle_event(Key::Home));
    assert!(f.handle_event(Key::Delete));
    assert_eq!(f.text(), "b");
    assert!(f.handle_event(Key::End));
    assert_eq!(f.cursor_position, 1);
    assert!(f.handle_event(Key::Esc));
    assert!(!f.active);
}

#[test]
fn multiline_field_moves_between_lines() {
    let mut f = InputField::new_multiline("Notes");
    f.focus();
    for c in "abc".chars() {
        f.handle_event(Key::Char(c));
    }
    f.handle_event(Key::Enter);
    for c in "z".chars() {
        f.handle_event(Key::Char(c));
    }
    assert_eq!(f.text(), "abc\nz");
    assert_eq!(f.cursor_line_col(), (1, 1));
    assert!(f.handle_event(Key::Up));
    assert_eq!(f.cursor_line_col(), (0, 1));
    assert!(f.handle_event(Key::End));
    assert_eq!(f.cursor_line_col(), (0, 3));
    assert!(f.handle_event(Key::Down));
    assert_eq!(f.cursor_line_col(), (1, 1));
    assert!(f.handle_event(Key::Home));
    assert_eq!(f.cursor_line_col(), (1, 0));
}

#[test]
fn fuzzy_search_matches_and_navigates() {
    let todos = vec![task("alpha", "One", "low"), task("beta", "Two", "low"), task("gamma", "Three", "low")];
    let mut fs = FuzzySearch::new();
    fs.update_matches(&todos);
    assert_eq!(fs.matched_indices().as_slice(), &[0, 1, 2]);
    fs.input.focus();
    fs.handle_event(Key::Char('a'));
    fs.update_matches(&todos);
    assert_eq!(fs.matched_indices().len(), 3);
    fs.handle_event(Key::Down);
    assert_eq!(fs.selected_match(), 1);
    fs.handle_event(Key::Up);
    assert_eq!(fs.selected_match(), 0);
    // the blob carries id, fields and subtask text
    let b = build_blob(&todos[0]);
    assert!(b.contains("Alpha"));
    assert!(b.contains("One"));
    assert!(b.contains("Pending"));
}

#[test]
fn config_dir_paths_end_with_the_app_folder() {
    if let Some(dir) = ConfigDir::new() {
        assert!(dir.config_dir.ends_with("voido"));
        assert!(dir.db_path().ends_with("voido/todos.db"));
    }
}
