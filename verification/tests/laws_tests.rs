use rustdu::app::{entry_line, name_on_line, Action, App, AppMode, Key, Language};
use rustdu::percent::percent_text_exec;
use rustdu::scanner::{FileEntry, SizeCache};
use rustdu::ui::{color_for_size, SizeColor};
use std::path::PathBuf;

fn rank(c: SizeColor) -> u8 {
    match c {
        SizeColor::Gray => 0,
        SizeColor::Green => 1,
        SizeColor::LightBlue => 2,
        SizeColor::Yellow => 3,
        SizeColor::Red => 4,
    }
}

#[test]
fn whole_total_is_hundred_percent_examples() {
    for s in [1u64, 7, 1 << 40, (1 << 53) + 1, u64::MAX] {
        assert_eq!(percent_text_exec(s, s), "100.0");
    }
}

#[test]
fn share_at_most_hundred_percent_examples() {
    for (s, t) in [(1u64, 1u64), (u64::MAX - 1, u64::MAX), ((1 << 53) + 1, (1 << 53) + 2), (999, 1000)] {
        let p: f64 = percent_text_exec(s, t).trim().parse().unwrap();
        assert!(p <= 100.0);
    }
}

#[test]
fn color_grows_with_size_examples() {
    let mut prev = 0;
    for k in 0..64u32 {
        let r = rank(color_for_size(1u64 << k));
        assert!(r >= prev);
        prev = r;
    }
}

#[test]
fn cache_read_after_record_example() {
    let mut cache = SizeCache::new();
    cache.record("/x".to_string(), 5);
    cache.record("/y".to_string(), 6);
    assert_eq!(cache.cached("/x"), Some(5));
    cache.invalidate("/y");
    assert_eq!(cache.cached("/x"), Some(5));
}

#[test]
fn highlighted_line_is_acted_on_example() {
    let mut app = App::new();
    let es = vec![
        FileEntry { name: "a b".to_string(), path: PathBuf::from("a b"), size: 2, is_dir: true },
        FileEntry { name: " c".to_string(), path: PathBuf::from(" c"), size: 1, is_dir: false },
    ];
    app.poll_scanner(Some((app.scan_id, Ok((es, 3)))));
    for (i, name) in ["a b", " c"].iter().enumerate() {
        app.selected = Some(i);
        assert!(app.nodes[i].ends_with(name));
        match app.handle_key(Key::Enter) {
            Action::OpenEntry(n) => assert_eq!(n, *name),
            other => panic!("unexpected {:?}", other),
        }
        app.handle_key(Key::Char('d'));
        assert_eq!(app.delete_target.as_deref(), Some(*name));
        app.handle_key(Key::Esc);
    }
}

#[test]
fn browse_navigation_wraps_example() {
    let mut app = App::new();
    let es: Vec<FileEntry> = (0..3).map(|i| FileEntry { name: format!("f{}", i), path: PathBuf::from("f"), size: i, is_dir: false }).collect();
    app.poll_scanner(Some((app.scan_id, Ok((es, 3)))));
    for i in 0..3usize {
        app.selected = Some(i);
        app.handle_browse(Key::Down);
        assert_eq!(app.selected, Some((i + 1) % 3));
        app.selected = Some(i);
        app.handle_browse(Key::Up);
        assert_eq!(app.selected, Some((i + 3 - 1) % 3));
    }
}

#[test]
fn path_type_then_erase_example() {
    let mut app = App::new();
    app.handle_key(Key::Char('g'));
    app.handle_input_path(Key::Backspace);
    assert_eq!(app.input_buffer, "");
    for c in ['/', 'ж', 'l', '📁'] {
        app.handle_input_path(Key::Char(c));
        app.handle_input_path(Key::Backspace);
        assert_eq!(app.input_buffer, "");
    }
    app.handle_input_path(Key::Char('x'));
    app.handle_input_path(Key::Char('y'));
    app.handle_input_path(Key::Backspace);
    assert_eq!(app.input_buffer, "x");
    assert!(app.mode == AppMode::InputPath);
}

#[test]
fn target_iff_confirming_example() {
    let mut app = App::new();
    let es = vec![FileEntry { name: "x".to_string(), path: PathBuf::from("x"), size: 1, is_dir: false }];
    app.poll_scanner(Some((app.scan_id, Ok((es, 1)))));
    let keys = [Key::Char('d'), Key::Char('q'), Key::Char('n'), Key::Char('d'), Key::Char('y'), Key::Char('?'), Key::Char('d'), Key::Char('d'), Key::Esc, Key::Char('l'), Key::Char('d'), Key::Char('l')];
    assert_eq!(app.delete_target.is_some(), app.mode == AppMode::ConfirmDelete);
    for k in keys {
        app.handle_key(k);
        assert_eq!(app.delete_target.is_some(), app.mode == AppMode::ConfirmDelete);
    }
}

#[test]
fn language_switch_twice_example() {
    let mut app = App::new();
    app.handle_key(Key::Char('l'));
    app.handle_key(Key::Char('l'));
    assert!(app.lang == Language::English);
}

#[test]
fn down_then_up_example() {
    let mut app = App::new();
    let es: Vec<FileEntry> = (0..4).map(|i| FileEntry { name: format!("f{}", i), path: PathBuf::from("f"), size: i, is_dir: false }).collect();
    app.poll_scanner(Some((app.scan_id, Ok((es, 6)))));
    for start in 0..4 {
        app.selected = Some(start);
        app.handle_key(Key::Down);
        app.handle_key(Key::Up);
        assert_eq!(app.selected, Some(start));
        app.handle_key(Key::Up);
        app.handle_key(Key::Down);
        assert_eq!(app.selected, Some(start));
    }
}

#[test]
fn sort_keeps_entries_example() {
    let mut app = App::new();
    let es: Vec<FileEntry> = ["c", "a", "b", "a"].iter().enumerate().map(|(i, n)| FileEntry { name: n.to_string(), path: PathBuf::from(n), size: (i % 2) as u64, is_dir: false }).collect();
    app.poll_scanner(Some((app.scan_id, Ok((es, 2)))));
    app.handle_key(Key::Char('n'));
    let mut names: Vec<String> = app.raw_entries.iter().map(|e| e.name.clone()).collect();
    assert_eq!(names, vec!["a", "a", "b", "c"]);
    names.sort();
    assert_eq!(names.len(), 4);
}

fn sample_app() -> App {
    let mut app = App::new();
    let es: Vec<FileEntry> = [("b", 3u64), ("A", 9), ("c", 3), ("ab", 0)]
        .iter()
        .map(|(n, s)| FileEntry { name: n.to_string(), path: PathBuf::from(n), size: *s, is_dir: false })
        .collect();
    app.poll_scanner(Some((app.scan_id, Ok((es, 15)))));
    app
}

#[test]
fn sort_twice_is_sort_once_example() {
    let mut app = sample_app();
    app.handle_key(Key::Char('n'));
    let once: Vec<String> = app.raw_entries.iter().map(|e| e.name.clone()).collect();
    app.handle_key(Key::Char('n'));
    let twice: Vec<String> = app.raw_entries.iter().map(|e| e.name.clone()).collect();
    assert_eq!(once, twice);
    assert_eq!(once, vec!["A", "ab", "b", "c"]);
}

#[test]
fn filter_type_then_erase_example() {
    let mut app = sample_app();
    app.handle_key(Key::Char('/'));
    let before = app.nodes.clone();
    app.handle_key(Key::Char('a'));
    assert_eq!(app.nodes.len(), 2);
    app.handle_key(Key::Backspace);
    assert_eq!(app.nodes, before);
    assert!(app.filter_query.is_empty());
}

#[test]
fn keys_keep_listing_consistent_example() {
    let mut app = sample_app();
    let keys = [Key::Char('n'), Key::Down, Key::Char('/'), Key::Char('b'), Key::Enter, Key::Char('s'), Key::Char('?'), Key::Esc];
    for k in keys {
        app.handle_key(k);
        let shown = app.nodes.clone();
        app.build_display_strings();
        assert_eq!(app.nodes, shown);
    }
}

#[test]
fn scan_result_gives_consistent_listing_example() {
    let mut app = sample_app();
    let shown = app.nodes.clone();
    app.build_display_strings();
    assert_eq!(app.nodes, shown);
    app.load_directory();
    app.poll_scanner(Some((app.scan_id, Err(anyhow::Error::msg("gone")))));
    app.build_display_strings();
    assert!(app.nodes.is_empty());
}

#[test]
fn escape_returns_to_browse_example() {
    let mut app = sample_app();
    for open in [Key::Char('?'), Key::Char('g'), Key::Char('/'), Key::Char('d')] {
        app.handle_key(open);
        app.handle_key(Key::Esc);
        assert!(app.mode == rustdu::app::AppMode::Browse);
    }
}

#[test]
fn line_starts_with_size_example() {
    let app = sample_app();
    for (line, e) in app.nodes.iter().zip(app.raw_entries.iter()) {
        assert_eq!(rustdu::text::first_word_of(line), Some(rustdu::format::format_size(e.size)));
    }
}

#[test]
fn line_names_its_entry_example() {
    for name in ["plain", "my file", " lead", "trail ", "tab\there", "a 📁  b", "💾", ""] {
        for (size, total, is_dir) in [(0u64, 0u64, false), (1536, 3000, true), (u64::MAX, u64::MAX, false)] {
            let e = FileEntry { name: name.to_string(), path: PathBuf::from("p"), size, is_dir };
            let line = entry_line(&e, total);
            assert_eq!(name_on_line(&line).as_deref(), Some(name), "{:?}", line);
        }
    }
}

#[test]
fn help_any_key_closes_example() {
    let mut app = App::new();
    for k in [Key::Char('l'), Key::Char('д'), Key::Char('r'), Key::Backspace] {
        app.handle_key(Key::Char('?'));
        let lang = app.lang;
        assert!(matches!(app.handle_key(k), Action::Nothing));
        assert!(app.mode == AppMode::Browse);
        assert!(app.lang == lang);
    }
}
