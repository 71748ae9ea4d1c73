use voider::Document;
use voider::Editor;
use voider::Position;
use voider::SearchDirection;
use voider::Terminal;
use voider::Type;

fn hl_of(d: &Document, row: usize) -> Vec<Type> {
    d.row(row).unwrap().highlighting().clone()
}

#[test]
fn highlight_twice_is_identical() {
    let mut d = Document::open("sample.rs", "let x = 1;\n/* open\nmid\nend */ y");
    let before: Vec<Vec<Type>> = (0..d.len()).map(|i| hl_of(&d, i)).collect();
    let none_word: Option<String> = None;
    d.highlight(&none_word, None);
    let after: Vec<Vec<Type>> = (0..d.len()).map(|i| hl_of(&d, i)).collect();
    assert_eq!(before, after);
}

#[test]
fn save_open_round_trip_reproduces_rows() {
    let d = Document::open("notes.txt", "alpha\nbeta\ngamma");
    let written = d.contents();
    assert_eq!(written, "alpha\nbeta\ngamma");
    let d2 = Document::open("notes.txt", &written);
    assert_eq!(d2.len(), d.len());
    for i in 0..d.len() {
        assert_eq!(d.row(i).unwrap().contents(), d2.row(i).unwrap().contents());
    }
}

#[test]
fn search_wraps_to_single_match_from_anywhere() {
    let d = Document::open("t.txt", "abc\nxyz\nabc");
    let hit = Position { x: 0, y: 1 };
    let starts = [
        Position { x: 0, y: 0 },
        Position { x: 2, y: 0 },
        Position { x: 2, y: 1 },
        Position { x: 3, y: 2 },
        Position { x: 0, y: 2 },
    ];
    for at in starts.iter() {
        let f = d.find("xyz", at, SearchDirection::Forward);
        assert_eq!(f, Some(hit));
        let b = d.find("xyz", at, SearchDirection::Backward);
        assert_eq!(b, Some(hit));
    }
    assert_eq!(d.find("", &Position { x: 0, y: 0 }, SearchDirection::Forward), None);
    assert_eq!(d.find("", &Position { x: 1, y: 1 }, SearchDirection::Backward), None);
}

#[test]
fn dirty_set_by_edits_cleared_only_by_successful_save() {
    let mut d = Document::open("t.txt", "ab");
    assert!(!d.is_dirty());
    d.insert(&Position { x: 1, y: 0 }, 'z');
    assert!(d.is_dirty());
    d.insert(&Position { x: 0, y: 0 }, 'q');
    d.delete(&Position { x: 0, y: 0 });
    assert!(d.is_dirty());
    d.record_save(false);
    assert!(d.is_dirty());
    d.record_save(true);
    assert!(!d.is_dirty());
    d.delete(&Position { x: 0, y: 0 });
    assert!(d.is_dirty());
}

#[test]
fn multi_line_comment_carries_across_rows() {
    let d = Document::open("c.rs", "a\n/* start\nmiddle\nend */ b");
    assert_eq!(hl_of(&d, 0), vec![Type::Plain]);
    assert_eq!(hl_of(&d, 1), vec![Type::MiltilineComment; 8]);
    assert_eq!(hl_of(&d, 2), vec![Type::MiltilineComment; 6]);
    let row3 = hl_of(&d, 3);
    assert_eq!(row3.len(), 8);
    for i in 0..6 {
        assert_eq!(row3[i], Type::MiltilineComment);
    }
    assert_eq!(row3[6], Type::Plain);
    assert_eq!(row3[7], Type::Plain);
}

#[test]
fn find_then_split_scenario() {
    let mut d = Document::open("s.txt", "int x = 5;\n// note\nlet y = \"str\"");
    let hit = d.find("y", &Position { x: 0, y: 0 }, SearchDirection::Forward);
    assert_eq!(hit, Some(Position { x: 4, y: 2 }));
    d.insert(&Position { x: 3, y: 0 }, '\n');
    assert_eq!(d.len(), 4);
    assert_eq!(d.row(0).unwrap().contents(), "int");
    assert_eq!(d.row(1).unwrap().contents(), " x = 5;");
}

#[test]
fn empty_document_and_failed_open() {
    let d = Document::new();
    assert!(d.is_empty());
    let term = Terminal::from_query(Some((80, 24)));
    let e = Editor::create(term, Some("no_such_file.txt".to_string()), None);
    assert!(e.document().get_file_name().is_none());
    assert!(!e.document().is_dirty());
    assert_eq!(e.status().text, "ERR: Could not open file: no_such_file.txt");
    assert!(e.document().is_empty());
}
