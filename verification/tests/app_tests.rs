use rustdu::app::{Action, App, AppMode, Key, Language, SortMode};
use rustdu::format::format_size;
use rustdu::scanner::FileEntry;
use std::path::PathBuf;

fn entry(name: &str, size: u64, is_dir: bool) -> FileEntry {
    FileEntry { name: name.to_string(), path: PathBuf::from(name), size, is_dir }
}

fn reference_line(name: &str, size: u64, is_dir: bool, total: u64) -> String {
    let size_str = format_size(size);
    let icon = if is_dir { "📁" } else { "💾" };
    let percent = if total > 0 { (size as f64 / total as f64) * 100.0 } else { 0.0 };
    format!("{:>8}  {:>5.1}%  {}  {}", size_str, percent, icon, name)
}

fn loaded_app() -> App {
    let mut app = App::new();
    let entries = vec![
        entry("small", 1024, false),
        entry("big", 3072, true),
        entry("Mid", 2048, false),
    ];
    app.poll_scanner(Some((app.scan_id, Ok((entries, 6144)))));
    app
}

fn press(app: &mut App, keys: &[Key]) -> Action {
    let mut last = Action::Nothing;
    for k in keys {
        last = app.handle_key(*k);
    }
    last
}

#[test]
fn new_app_waits_for_first_scan() {
    let app = App::new();
    assert!(app.loading);
    assert_eq!(app.selected, Some(0));
    assert!(app.mode == AppMode::Browse);
    assert!(app.lang == Language::English);
    assert!(app.sort_mode == SortMode::Size);
    assert!(app.nodes.is_empty());
    assert!(app.raw_entries.is_empty());
    assert_eq!(app.total_size, 0);
}

#[test]
fn poll_without_delivery_changes_nothing() {
    let mut app = App::new();
    app.poll_scanner(None);
    assert!(app.loading);
    assert!(app.nodes.is_empty());
}

#[test]
fn poll_takes_scan_result_sorted_by_size() {
    let app = loaded_app();
    assert!(!app.loading);
    assert_eq!(app.total_size, 6144);
    assert_eq!(app.selected, Some(0));
    let names: Vec<&str> = app.raw_entries.iter().map(|e| e.name.as_str()).collect();
    assert_eq!(names, vec!["big", "Mid", "small"]);
    assert_eq!(app.nodes, vec![
        reference_line("big", 3072, true, 6144),
        reference_line("Mid", 2048, false, 6144),
        reference_line("small", 1024, false, 6144),
    ]);
    assert_eq!(app.nodes[0], "    3.0K   50.0%  📁  big");
}

#[test]
fn poll_when_nothing_pending_is_ignored() {
    let mut app = loaded_app();
    app.poll_scanner(Some((app.scan_id, Ok((vec![entry("other", 1, false)], 1)))));
    assert_eq!(app.raw_entries.len(), 3);
    assert_eq!(app.total_size, 6144);
}

#[test]
fn poll_failure_empties_listing() {
    let mut app = loaded_app();
    app.load_directory();
    assert!(app.loading);
    app.selected = Some(2);
    app.poll_scanner(Some((app.scan_id, Err(anyhow::Error::msg("permission denied")))));
    assert!(!app.loading);
    assert!(app.nodes.is_empty());
    assert!(app.raw_entries.is_empty());
    assert_eq!(app.total_size, 0);
    assert_eq!(app.selected, Some(0));
}

#[test]
fn down_and_up_wrap_around() {
    let mut app = loaded_app();
    press(&mut app, &[Key::Down]);
    assert_eq!(app.selected, Some(1));
    press(&mut app, &[Key::Down, Key::Down]);
    assert_eq!(app.selected, Some(0));
    press(&mut app, &[Key::Up]);
    assert_eq!(app.selected, Some(2));
    press(&mut app, &[Key::Up]);
    assert_eq!(app.selected, Some(1));
}

#[test]
fn down_on_empty_list_stays_at_zero() {
    let mut app = App::new();
    press(&mut app, &[Key::Down, Key::Up]);
    assert_eq!(app.selected, Some(0));
}

#[test]
fn enter_opens_highlighted_entry() {
    let mut app = loaded_app();
    press(&mut app, &[Key::Down]);
    match app.handle_key(Key::Enter) {
        Action::OpenEntry(name) => assert_eq!(name, "Mid"),
        other => panic!("unexpected {:?}", other),
    }
    assert!(app.mode == AppMode::Browse);
}

#[test]
fn enter_without_line_does_nothing() {
    let mut app = App::new();
    assert!(matches!(app.handle_key(Key::Enter), Action::Nothing));
}

#[test]
fn backspace_asks_for_parent() {
    let mut app = loaded_app();
    assert!(matches!(app.handle_key(Key::Backspace), Action::OpenParent));
}

#[test]
fn change_directory_clears_filter_and_rescans() {
    let mut app = loaded_app();
    press(&mut app, &[Key::Char('/'), Key::Char('b'), Key::Enter]);
    app.change_directory();
    assert!(app.filter_query.is_empty());
    assert!(app.loading);
}

#[test]
fn delete_needs_confirmation() {
    let mut app = loaded_app();
    assert!(matches!(app.handle_key(Key::Char('d')), Action::Nothing));
    assert!(app.mode == AppMode::ConfirmDelete);
    assert_eq!(app.delete_target.as_deref(), Some("big"));
    assert!(matches!(app.handle_key(Key::Char('x')), Action::Nothing));
    assert!(app.mode == AppMode::ConfirmDelete);
    match app.handle_key(Key::Char('y')) {
        Action::Delete(name) => assert_eq!(name, "big"),
        other => panic!("unexpected {:?}", other),
    }
    assert!(app.mode == AppMode::Browse);
    assert!(app.delete_target.is_none());
}

#[test]
fn delete_can_be_cancelled() {
    let mut app = loaded_app();
    press(&mut app, &[Key::Char('d')]);
    assert!(matches!(app.handle_key(Key::Char('n')), Action::Nothing));
    assert!(app.mode == AppMode::Browse);
    assert!(app.delete_target.is_none());
    press(&mut app, &[Key::Char('d')]);
    assert!(matches!(app.handle_key(Key::Esc), Action::Nothing));
    assert!(app.delete_target.is_none());
}

#[test]
fn goto_path_typing() {
    let mut app = loaded_app();
    press(&mut app, &[Key::Char('g')]);
    assert!(app.mode == AppMode::InputPath);
    press(&mut app, &[Key::Char('/'), Key::Char('t'), Key::Char('l'), Key::Char('p'), Key::Backspace]);
    assert_eq!(app.input_buffer, "/tl");
    assert!(app.lang == Language::English);
    match app.handle_key(Key::Enter) {
        Action::OpenPath(p) => assert_eq!(p, "/tl"),
        other => panic!("unexpected {:?}", other),
    }
    assert!(app.mode == AppMode::Browse);
    assert!(app.input_buffer.is_empty());
}

#[test]
fn goto_path_escape_discards() {
    let mut app = loaded_app();
    press(&mut app, &[Key::Char('g'), Key::Char('x')]);
    assert!(matches!(app.handle_key(Key::Esc), Action::Nothing));
    assert!(app.mode == AppMode::Browse);
    assert!(app.input_buffer.is_empty());
    press(&mut app, &[Key::Char('g'), Key::Backspace]);
    assert!(app.input_buffer.is_empty());
}

#[test]
fn filter_is_case_insensitive() {
    let mut app = loaded_app();
    press(&mut app, &[Key::Char('/'), Key::Char('M'), Key::Char('I')]);
    assert!(app.mode == AppMode::Filter);
    assert_eq!(app.filter_query, "MI");
    assert_eq!(app.nodes, vec![reference_line("Mid", 2048, false, 6144)]);
    press(&mut app, &[Key::Backspace, Key::Backspace]);
    assert_eq!(app.nodes.len(), 3);
    press(&mut app, &[Key::Char('z')]);
    assert!(app.nodes.is_empty());
    press(&mut app, &[Key::Enter]);
    assert!(app.mode == AppMode::Browse);
    assert_eq!(app.filter_query, "z");
}

#[test]
fn filter_lowercases_unicode() {
    let mut app = App::new();
    app.poll_scanner(Some((app.scan_id, Ok((vec![entry("ДОКУМЕНТЫ", 10, true), entry("photos", 5, true)], 15)))));
    press(&mut app, &[Key::Char('/'), Key::Char('д'), Key::Char('О')]);
    assert_eq!(app.nodes.len(), 1);
    assert!(app.nodes[0].ends_with("ДОКУМЕНТЫ"));
}

#[test]
fn sort_keys_switch_order() {
    let mut app = loaded_app();
    press(&mut app, &[Key::Char('n')]);
    assert!(app.sort_mode == SortMode::Name);
    let names: Vec<&str> = app.raw_entries.iter().map(|e| e.name.as_str()).collect();
    assert_eq!(names, vec!["Mid", "big", "small"]);
    assert!(app.nodes[1].ends_with("big"));
    press(&mut app, &[Key::Char('s')]);
    let names: Vec<&str> = app.raw_entries.iter().map(|e| e.name.as_str()).collect();
    assert_eq!(names, vec!["big", "Mid", "small"]);
}

#[test]
fn refresh_asks_for_scan() {
    let mut app = loaded_app();
    assert!(matches!(app.handle_key(Key::Char('r')), Action::Scan));
    assert!(app.loading);
}

#[test]
fn help_opens_and_any_key_closes() {
    let mut app = loaded_app();
    press(&mut app, &[Key::Char('?')]);
    assert!(app.mode == AppMode::Help);
    press(&mut app, &[Key::Char('l')]);
    assert!(app.mode == AppMode::Browse);
    assert!(app.lang == Language::English);
    for k in [Key::Other, Key::Char('д'), Key::Esc, Key::Enter, Key::Char('?'), Key::Char('x'), Key::Down] {
        press(&mut app, &[Key::Char('?')]);
        assert!(app.mode == AppMode::Help);
        assert!(matches!(app.handle_key(k), Action::Nothing));
        assert!(app.mode == AppMode::Browse);
        assert!(app.lang == Language::English);
        assert_eq!(app.selected, Some(0));
    }
}

#[test]
fn language_switches_back_and_forth() {
    let mut app = loaded_app();
    press(&mut app, &[Key::Char('l')]);
    assert!(app.lang == Language::Russian);
    press(&mut app, &[Key::Char('l')]);
    assert!(app.lang == Language::English);
}

#[test]
fn zero_total_shows_zero_percent() {
    let mut app = App::new();
    app.poll_scanner(Some((app.scan_id, Ok((vec![entry("empty", 0, false)], 0)))));
    assert_eq!(app.nodes, vec![reference_line("empty", 0, false, 0)]);
    assert_eq!(app.nodes[0], "      0B    0.0%  💾  empty");
}

#[test]
fn russian_layout_keys_work_as_shortcuts() {
    let mut app = loaded_app();
    press(&mut app, &[Key::Char('т')]);
    assert!(app.sort_mode == SortMode::Name);
    press(&mut app, &[Key::Char('ы')]);
    assert!(app.sort_mode == SortMode::Size);
    press(&mut app, &[Key::Char('д')]);
    assert!(app.lang == Language::Russian);
    assert!(matches!(app.handle_key(Key::Char('к')), Action::Scan));
    press(&mut app, &[Key::Char('в')]);
    assert!(app.mode == AppMode::ConfirmDelete);
    match app.handle_key(Key::Char('н')) {
        Action::Delete(name) => assert_eq!(name, "big"),
        other => panic!("unexpected {:?}", other),
    }
    press(&mut app, &[Key::Char(',')]);
    assert!(app.mode == AppMode::Help);
    press(&mut app, &[Key::Esc, Key::Char('п')]);
    assert!(app.mode == AppMode::InputPath);
    press(&mut app, &[Key::Esc, Key::Char('.')]);
    assert!(app.mode == AppMode::Filter);
}

#[test]
fn russian_letters_are_text_while_typing() {
    let mut app = loaded_app();
    press(&mut app, &[Key::Char('/'), Key::Char('д'), Key::Char('в')]);
    assert_eq!(app.filter_query, "дв");
    assert!(app.lang == Language::English);
    press(&mut app, &[Key::Esc, Key::Char('g'), Key::Char('т'), Key::Char('.')]);
    assert_eq!(app.input_buffer, "т.");
    assert!(app.mode == AppMode::InputPath);
}

fn spaced_app() -> App {
    let mut app = App::new();
    let entries = vec![entry("my file", 2048, false), entry("my dir", 1024, true)];
    app.poll_scanner(Some((app.scan_id, Ok((entries, 3072)))));
    app
}

#[test]
fn delete_targets_whole_name_with_space() {
    let mut app = spaced_app();
    assert_eq!(app.nodes[0], reference_line("my file", 2048, false, 3072));
    assert!(matches!(app.handle_key(Key::Char('d')), Action::Nothing));
    assert!(app.mode == AppMode::ConfirmDelete);
    assert_eq!(app.delete_target.as_deref(), Some("my file"));
    match app.handle_key(Key::Char('y')) {
        Action::Delete(name) => assert_eq!(name, "my file"),
        other => panic!("unexpected {:?}", other),
    }
}

#[test]
fn enter_opens_whole_name_with_space() {
    let mut app = spaced_app();
    press(&mut app, &[Key::Down]);
    match app.handle_key(Key::Enter) {
        Action::OpenEntry(name) => assert_eq!(name, "my dir"),
        other => panic!("unexpected {:?}", other),
    }
}

#[test]
fn enter_opens_name_ending_in_whitespace() {
    let mut app = App::new();
    app.poll_scanner(Some((app.scan_id, Ok((vec![entry("tab\t", 5, false)], 5)))));
    match app.handle_key(Key::Enter) {
        Action::OpenEntry(name) => assert_eq!(name, "tab\t"),
        other => panic!("unexpected {:?}", other),
    }
}

#[test]
fn filtered_selection_acts_on_shown_entry() {
    let mut app = loaded_app();
    press(&mut app, &[Key::Char('/'), Key::Char('m'), Key::Char('i'), Key::Enter]);
    assert_eq!(app.nodes.len(), 1);
    assert_eq!(app.selected_name().as_deref(), Some("Mid"));
    match app.handle_key(Key::Enter) {
        Action::OpenEntry(name) => assert_eq!(name, "Mid"),
        other => panic!("unexpected {:?}", other),
    }
    press(&mut app, &[Key::Char('d')]);
    assert_eq!(app.delete_target.as_deref(), Some("Mid"));
}

#[test]
fn selected_name_follows_highlight() {
    let mut app = loaded_app();
    assert_eq!(app.selected_name().as_deref(), Some("big"));
    app.selected = Some(2);
    assert_eq!(app.selected_name().as_deref(), Some("small"));
    app.selected = Some(3);
    assert_eq!(app.selected_name(), None);
    app.selected = None;
    assert_eq!(app.selected_name(), None);
}

#[test]
fn delete_past_last_line_does_nothing() {
    let mut app = loaded_app();
    app.selected = Some(7);
    assert!(matches!(app.handle_key(Key::Char('d')), Action::Nothing));
    assert!(app.mode == AppMode::Browse);
    assert!(app.delete_target.is_none());
}

#[test]
fn handlers_follow_their_modes() {
    let mut app = loaded_app();
    assert!(matches!(app.handle_browse(Key::Char('g')), Action::Nothing));
    assert!(app.mode == AppMode::InputPath);
    app.handle_input_path(Key::Char('/'));
    app.handle_input_path(Key::Char('x'));
    app.handle_input_path(Key::Backspace);
    match app.handle_input_path(Key::Enter) {
        Action::OpenPath(p) => assert_eq!(p, "/"),
        other => panic!("unexpected {:?}", other),
    }
    app.handle_browse(Key::Char('d'));
    assert!(app.mode == AppMode::ConfirmDelete);
    assert!(matches!(app.handle_confirm_delete(Key::Esc), Action::Nothing));
    app.handle_browse(Key::Char('/'));
    app.handle_filter(Key::Char('s'));
    assert_eq!(app.nodes.len(), 1);
    app.handle_filter(Key::Backspace);
    assert_eq!(app.nodes.len(), 3);
}

#[test]
fn stale_scan_result_is_ignored() {
    let mut app = loaded_app();
    let old = app.scan_id;
    app.load_directory();
    assert_ne!(app.scan_id, old);
    app.poll_scanner(Some((old, Ok((vec![entry("stale", 1, false)], 1)))));
    assert!(app.loading);
    assert_eq!(app.raw_entries.len(), 3);
    app.poll_scanner(Some((old, Err(anyhow::Error::msg("stale")))));
    assert!(app.loading);
    assert_eq!(app.nodes.len(), 3);
    app.poll_scanner(Some((app.scan_id, Ok((vec![entry("fresh", 1, false)], 1)))));
    assert!(!app.loading);
    assert_eq!(app.raw_entries[0].name, "fresh");
}

#[test]
fn scan_numbers_wrap() {
    let mut app = App::new();
    assert_eq!(app.scan_id, 1);
    app.scan_id = u64::MAX;
    app.load_directory();
    assert_eq!(app.scan_id, 0);
    app.change_directory();
    assert_eq!(app.scan_id, 1);
}

#[test]
fn delete_marks_name_on_highlighted_line() {
    let mut app = App::new();
    app.loading = false;
    app.nodes = vec!["    1.0K   50.0%  💾  my file".to_string()];
    app.selected = Some(0);
    assert!(matches!(app.handle_browse(Key::Char('d')), Action::Nothing));
    assert!(app.mode == AppMode::ConfirmDelete);
    assert_eq!(app.delete_target.as_deref(), Some("my file"));
}

#[test]
fn russian_d_marks_name_on_highlighted_line() {
    let mut app = App::new();
    app.nodes = vec!["    1.0K   50.0%  💾  a".to_string()];
    app.selected = Some(0);
    assert!(matches!(app.handle_browse(Key::Char('в')), Action::Nothing));
    assert!(app.mode == AppMode::ConfirmDelete);
    assert_eq!(app.delete_target.as_deref(), Some("a"));
    match app.handle_confirm_delete(Key::Char('н')) {
        Action::Delete(name) => assert_eq!(name, "a"),
        other => panic!("unexpected {:?}", other),
    }
}

#[test]
fn enter_opens_name_on_highlighted_line_after_directory_change() {
    let mut app = spaced_app();
    press(&mut app, &[Key::Char('/'), Key::Char('d'), Key::Char('i'), Key::Enter]);
    assert_eq!(app.nodes.len(), 1);
    app.change_directory();
    match app.handle_key(Key::Enter) {
        Action::OpenEntry(name) => assert_eq!(name, "my dir"),
        other => panic!("unexpected {:?}", other),
    }
}

#[test]
fn line_without_icon_names_nothing() {
    let mut app = App::new();
    app.nodes = vec!["no icon here".to_string(), "x 📁 ".to_string()];
    app.selected = Some(0);
    assert!(matches!(app.handle_key(Key::Enter), Action::Nothing));
    app.handle_key(Key::Char('d'));
    assert!(app.mode == AppMode::Browse);
    app.selected = Some(1);
    assert_eq!(app.selected_name(), None);
}
