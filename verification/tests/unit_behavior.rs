use voider::Color;
use voider::Document;
use voider::Editor;
use voider::EditorAction;
use voider::FileType;
use voider::Key;
use voider::Position;
use voider::Row;
use voider::SearchDirection;
use voider::Terminal;
use voider::Type;

#[test]
fn row_insert_clamps_and_appends() {
    let mut r = Row::from_str("ab");
    r.insert(1, 'x');
    assert_eq!(r.contents(), "axb");
    r.insert(99, 'z');
    assert_eq!(r.contents(), "axbz");
    assert_eq!(r.len(), 4);
}

#[test]
fn row_delete_at_end_is_noop() {
    let mut r = Row::from_str("ab");
    r.delete(2);
    assert_eq!(r.contents(), "ab");
    r.delete(0);
    assert_eq!(r.contents(), "b");
}

#[test]
fn row_split_and_append() {
    let mut r = Row::from_str("hello");
    let rest = r.split(2);
    assert_eq!(r.contents(), "he");
    assert_eq!(rest.contents(), "llo");
    let mut r2 = Row::from_str("he");
    r2.append(&rest);
    assert_eq!(r2.contents(), "hello");
}

#[test]
fn render_expands_tabs_to_stops() {
    let r = Row::from_str("a\tb");
    assert_eq!(r.render(0, 8), "a   b");
    assert_eq!(r.render(1, 4), "   ");
}

#[test]
fn render_drops_partially_visible_characters() {
    let r = Row::from_str("a\tb");
    assert_eq!(r.render(0, 4), "a   ");
    assert_eq!(r.render(0, 3), "a");
    assert_eq!(r.render(4, 5), "b");
}

#[test]
fn render_highlighting_tracks_cells() {
    let d = Document::open("k.rs", "\tlet");
    let row = d.row(0).unwrap();
    assert_eq!(row.render(0, 8), "    let");
    let cells = row.render_highlighting(0, 8);
    assert_eq!(
        cells,
        vec![
            Type::Plain,
            Type::Plain,
            Type::Plain,
            Type::Plain,
            Type::PrimaryKeywords,
            Type::PrimaryKeywords,
            Type::PrimaryKeywords,
        ]
    );
}

#[test]
fn row_find_forward_and_backward() {
    let r = Row::from_str("aaa");
    assert_eq!(r.find("aa", 0, SearchDirection::Forward), Some(0));
    assert_eq!(r.find("aa", 1, SearchDirection::Forward), Some(1));
    assert_eq!(r.find("aa", 2, SearchDirection::Forward), None);
    assert_eq!(r.find("aa", 3, SearchDirection::Backward), Some(1));
    assert_eq!(r.find("aa", 2, SearchDirection::Backward), Some(0));
    assert_eq!(r.find("aa", 1, SearchDirection::Backward), None);
}

#[test]
fn numbers_and_identifiers_classify() {
    let d = Document::open("n.rs", "x 12.5 a1");
    assert_eq!(
        d.row(0).unwrap().highlighting().clone(),
        vec![
            Type::Plain,
            Type::Plain,
            Type::Number,
            Type::Number,
            Type::Number,
            Type::Number,
            Type::Plain,
            Type::Plain,
            Type::Plain,
        ]
    );
}

#[test]
fn keywords_classify_whole_tokens_only() {
    let d = Document::open("k.rs", "let lets u8");
    let hl = d.row(0).unwrap().highlighting().clone();
    assert_eq!(hl[0], Type::PrimaryKeywords);
    assert_eq!(hl[1], Type::PrimaryKeywords);
    assert_eq!(hl[2], Type::PrimaryKeywords);
    for i in 4..8 {
        assert_eq!(hl[i], Type::Plain);
    }
    assert_eq!(hl[9], Type::SecondaryKeywords);
    assert_eq!(hl[10], Type::SecondaryKeywords);
}

#[test]
fn strings_respect_escapes_and_force_close() {
    let d = Document::open("s.rs", "\"a\\\"b\" x");
    let hl = d.row(0).unwrap().highlighting().clone();
    for i in 0..6 {
        assert_eq!(hl[i], Type::String);
    }
    assert_eq!(hl[6], Type::Plain);
    assert_eq!(hl[7], Type::Plain);
    let d2 = Document::open("s.rs", "\"open\nplain");
    assert_eq!(d2.row(0).unwrap().highlighting().clone(), vec![Type::String; 5]);
    assert_eq!(d2.row(1).unwrap().highlighting().clone(), vec![Type::Plain; 5]);
}

#[test]
fn character_literals_classify() {
    let d = Document::open("c.rs", "'a' '\\n' 'x");
    let hl = d.row(0).unwrap().highlighting().clone();
    assert_eq!(hl[0], Type::Character);
    assert_eq!(hl[1], Type::Character);
    assert_eq!(hl[2], Type::Character);
    assert_eq!(hl[3], Type::Plain);
    for i in 4..8 {
        assert_eq!(hl[i], Type::Character);
    }
    assert_eq!(hl[8], Type::Plain);
    assert_eq!(hl[9], Type::Plain);
    assert_eq!(hl[10], Type::Plain);
}

#[test]
fn line_comment_runs_to_row_end() {
    let d = Document::open("l.rs", "x // y z");
    let hl = d.row(0).unwrap().highlighting().clone();
    assert_eq!(hl[0], Type::Plain);
    assert_eq!(hl[1], Type::Plain);
    for i in 2..8 {
        assert_eq!(hl[i], Type::Comment);
    }
}

#[test]
fn query_overlay_marks_every_occurrence() {
    let mut d = Document::open("o.txt", "abcabc");
    let word = Some("bc".to_string());
    d.highlight(&word, None);
    assert_eq!(
        d.row(0).unwrap().highlighting().clone(),
        vec![Type::Plain, Type::Match, Type::Match, Type::Plain, Type::Match, Type::Match]
    );
}

#[test]
fn plain_files_get_no_lexical_highlighting() {
    let d = Document::open("p.txt", "let 12 \"s\" // c");
    let hl = d.row(0).unwrap().highlighting().clone();
    for t in hl.iter() {
        assert_eq!(*t, Type::Plain);
    }
    assert_eq!(d.file_type(), "No filetype");
    let dr = Document::open("p.rs", "x");
    assert_eq!(dr.file_type(), "Rust");
}

#[test]
fn colors_match_the_table() {
    assert_eq!(Type::Number.to_color(), Color::Rgb { r: 180, g: 126, b: 141 });
    assert_eq!(Type::Match.to_color(), Color::Rgb { r: 38, g: 139, b: 210 });
    assert_eq!(Type::String.to_color(), Color::Rgb { r: 205, g: 92, b: 8 });
    assert_eq!(Type::Character.to_color(), Color::Rgb { r: 108, g: 113, b: 196 });
    assert_eq!(Type::Comment.to_color(), Color::Rgb { r: 245, g: 232, b: 183 });
    assert_eq!(Type::MiltilineComment.to_color(), Color::Rgb { r: 245, g: 232, b: 183 });
    assert_eq!(Type::PrimaryKeywords.to_color(), Color::Red);
    assert_eq!(Type::SecondaryKeywords.to_color(), Color::Rgb { r: 255, g: 161, b: 152 });
    assert_eq!(Type::Plain.to_color(), Color::Rgb { r: 255, g: 255, b: 255 });
}

#[test]
fn terminal_reserves_two_rows() {
    let t = Terminal::from_query(Some((100, 40)));
    assert_eq!(t.size().width, 100);
    assert_eq!(t.size().height, 38);
    let f = Terminal::from_query(None);
    assert_eq!(f.size().width, 16);
    assert_eq!(f.size().height, 20);
}

#[test]
fn filetype_detection_needs_rs_suffix() {
    let ft = FileType::from("main.rs");
    assert_eq!(ft.name, "Rust");
    let other = FileType::from("main.rsx");
    assert_eq!(other.name, "No filetype");
}

#[test]
fn typing_builds_rows_and_moves_cursor() {
    let term = Terminal::from_query(Some((80, 24)));
    let mut e = Editor::create(term, None, None);
    assert_eq!(e.status().text, "HELP: F3 = find | F5 = save | F8 = quit");
    assert_eq!(e.process_key(Key::Char('h')), EditorAction::Continue);
    e.process_key(Key::Char('i'));
    assert_eq!(e.document().row(0).unwrap().contents(), "hi");
    assert_eq!(e.cursor_position(), Position { x: 2, y: 0 });
    e.process_key(Key::Enter);
    assert_eq!(e.document().len(), 2);
    assert_eq!(e.cursor_position(), Position { x: 0, y: 1 });
    e.process_key(Key::Char('o'));
    e.process_key(Key::Backspace);
    assert_eq!(e.document().row(1).unwrap().contents(), "");
    e.process_key(Key::Backspace);
    assert_eq!(e.document().len(), 1);
    assert_eq!(e.document().row(0).unwrap().contents(), "hi");
    assert_eq!(e.cursor_position(), Position { x: 2, y: 0 });
}

#[test]
fn cursor_motion_clamps_to_rows() {
    let term = Terminal::from_query(Some((80, 24)));
    let mut e = Editor::create(
        term,
        Some("m.txt".to_string()),
        Some("long line\nab".to_string()),
    );
    e.process_key(Key::End);
    assert_eq!(e.cursor_position(), Position { x: 9, y: 0 });
    e.process_key(Key::Down);
    assert_eq!(e.cursor_position(), Position { x: 2, y: 1 });
    e.process_key(Key::Home);
    assert_eq!(e.cursor_position(), Position { x: 0, y: 1 });
    e.process_key(Key::Left);
    assert_eq!(e.cursor_position(), Position { x: 9, y: 0 });
    e.process_key(Key::Right);
    assert_eq!(e.cursor_position(), Position { x: 0, y: 1 });
}

#[test]
fn quitting_dirty_needs_four_presses_and_resets() {
    let term = Terminal::from_query(Some((80, 24)));
    let mut e = Editor::create(term, None, None);
    e.process_key(Key::Char('x'));
    e.process_key(Key::F(8));
    assert!(!e.should_quit());
    assert_eq!(
        e.status().text,
        "WARNING! File has unsaved changes. Press F8 3 more times to quit."
    );
    e.process_key(Key::Char('y'));
    assert_eq!(e.quit_times(), 3);
    assert_eq!(e.status().text, "");
    e.process_key(Key::F(8));
    e.process_key(Key::F(8));
    e.process_key(Key::F(8));
    assert_eq!(
        e.status().text,
        "WARNING! File has unsaved changes. Press F8 1 more times to quit."
    );
    assert!(!e.should_quit());
    e.process_key(Key::F(8));
    assert!(e.should_quit());
}

#[test]
fn quitting_clean_is_immediate() {
    let term = Terminal::from_query(Some((80, 24)));
    let mut e = Editor::create(term, None, None);
    e.process_key(Key::F(8));
    assert!(e.should_quit());
}

#[test]
fn save_flow_prompts_writes_and_clears_dirty() {
    let term = Terminal::from_query(Some((80, 24)));
    let mut e = Editor::create(term, None, None);
    e.process_key(Key::Char('a'));
    assert_eq!(e.process_key(Key::F(5)), EditorAction::OpenSave);
    assert_eq!(e.save(None), None);
    assert_eq!(e.status().text, "Save aborted: ");
    let out = e.save(Some("out.txt".to_string()));
    assert_eq!(out, Some(("out.txt".to_string(), "a".to_string())));
    assert!(e.document().is_dirty());
    e.record_save(true);
    assert!(!e.document().is_dirty());
    assert_eq!(e.status().text, "File saved successfully.");
    e.process_key(Key::Char('b'));
    let again = e.save(None);
    assert_eq!(again, Some(("out.txt".to_string(), "ab".to_string())));
    e.record_save(false);
    assert!(e.document().is_dirty());
    assert_eq!(e.status().text, "Error writing file!");
}

#[test]
fn search_session_jumps_highlights_and_restores() {
    let term = Terminal::from_query(Some((80, 24)));
    let mut e = Editor::create(
        term,
        Some("s.txt".to_string()),
        Some("hello\nworld\nhello".to_string()),
    );
    let saved = e.begin_search();
    assert_eq!(e.process_key(Key::F(3)), EditorAction::OpenSearch);
    e.search_key(Key::Other, &"wor".to_string());
    assert_eq!(e.cursor_position(), Position { x: 0, y: 1 });
    assert_eq!(e.highlighted_word(), &Some("wor".to_string()));
    e.end_search(false, saved);
    assert_eq!(e.cursor_position(), Position { x: 0, y: 0 });
    assert_eq!(e.highlighted_word(), &None);
}

#[test]
fn search_right_advances_past_current_match() {
    let term = Terminal::from_query(Some((80, 24)));
    let mut e = Editor::create(term, Some("s.txt".to_string()), Some("aba aba".to_string()));
    e.search_key(Key::Other, &"aba".to_string());
    assert_eq!(e.cursor_position(), Position { x: 0, y: 0 });
    e.search_key(Key::Right, &"aba".to_string());
    assert_eq!(e.cursor_position(), Position { x: 4, y: 0 });
    e.search_key(Key::Right, &"aba".to_string());
    assert_eq!(e.cursor_position(), Position { x: 0, y: 0 });
    e.search_key(Key::Left, &"zzz".to_string());
    assert_eq!(e.cursor_position(), Position { x: 0, y: 0 });
}

#[test]
fn scroll_follows_cursor() {
    let term = Terminal::from_query(Some((4, 4)));
    let mut e = Editor::create(
        term,
        Some("s.txt".to_string()),
        Some("0\n1\n2\n3\n4\n5".to_string()),
    );
    e.process_key(Key::PageDown);
    assert_eq!(e.cursor_position().y, 2);
    e.process_key(Key::PageDown);
    assert_eq!(e.cursor_position().y, 4);
    assert!(e.offset().y > 0);
    e.process_key(Key::PageUp);
    e.process_key(Key::PageUp);
    assert_eq!(e.cursor_position().y, 0);
    assert_eq!(e.offset().y, 0);
}

#[test]
fn refreshed_highlighting_overlays_search_word() {
    let term = Terminal::from_query(Some((80, 24)));
    let mut e = Editor::create(term, Some("h.txt".to_string()), Some("abc".to_string()));
    e.search_key(Key::Other, &"bc".to_string());
    e.refresh_highlighting();
    assert_eq!(
        e.document().row(0).unwrap().highlighting().clone(),
        vec![Type::Plain, Type::Match, Type::Match]
    );
    let saved = Position { x: 0, y: 0 };
    e.end_search(true, saved);
    e.refresh_highlighting();
    assert_eq!(
        e.document().row(0).unwrap().highlighting().clone(),
        vec![Type::Plain, Type::Plain, Type::Plain]
    );
}

#[test]
fn document_find_prefers_scan_order() {
    let d = Document::open("o.txt", "ab ab\nab");
    assert_eq!(
        d.find("ab", &Position { x: 0, y: 0 }, SearchDirection::Forward),
        Some(Position { x: 0, y: 0 })
    );
    assert_eq!(
        d.find("ab", &Position { x: 1, y: 0 }, SearchDirection::Forward),
        Some(Position { x: 3, y: 0 })
    );
    assert_eq!(
        d.find("ab", &Position { x: 4, y: 0 }, SearchDirection::Forward),
        Some(Position { x: 0, y: 1 })
    );
    assert_eq!(
        d.find("ab", &Position { x: 0, y: 1 }, SearchDirection::Forward),
        Some(Position { x: 0, y: 1 })
    );
}

#[test]
fn document_find_backward_prefers_rightmost_before_cursor() {
    let d = Document::open("o.txt", "ab ab\nab");
    assert_eq!(
        d.find("ab", &Position { x: 5, y: 0 }, SearchDirection::Backward),
        Some(Position { x: 3, y: 0 })
    );
    assert_eq!(
        d.find("ab", &Position { x: 4, y: 0 }, SearchDirection::Backward),
        Some(Position { x: 0, y: 0 })
    );
    assert_eq!(
        d.find("ab", &Position { x: 0, y: 0 }, SearchDirection::Backward),
        Some(Position { x: 0, y: 1 })
    );
    assert_eq!(
        d.find("ab", &Position { x: 1, y: 1 }, SearchDirection::Backward),
        Some(Position { x: 3, y: 0 })
    );
}

#[test]
fn status_bar_lays_out_name_counts_and_language() {
    let term = Terminal::from_query(Some((42, 3)));
    let mut e = Editor::create(term, Some("a.rs".to_string()), Some("fn main() {}".to_string()));
    assert_eq!(e.status_bar_text(), "a.rs - 1 lines                Rust | 1 / 1");
    e.process_key(Key::Char('x'));
    assert_eq!(e.status_bar_text(), "a.rs - 1 lines  (modified)    Rust | 1 / 1");
    let term2 = Terminal::from_query(Some((42, 3)));
    let untitled = Editor::create(term2, None, None);
    assert_eq!(
        untitled.status_bar_text(),
        "[No Name] - 0 lines    No filetype | 1 / 0"
    );
}

#[test]
fn welcome_banner_is_centred_and_cut() {
    assert_eq!(voider::editor::welcome_text(30), "~  Voider -- version 0.1.0");
    assert_eq!(voider::editor::welcome_text(10), "~Voider --");
    assert_eq!(voider::editor::welcome_text(1), "~");
}
