use vstd::prelude::*;
use vstd::string::StringExecFns;
use crate::document::Document;
use crate::document::doc_highlights;
use crate::document::doc_rows_after_delete;
use crate::document::doc_rows_after_insert;
use crate::document::highlight_limit;
use crate::document::scan_no_later;
use crate::highlighting::match_at;
use crate::terminal::Terminal;
use crate::text::chars_from_str;
use crate::text::decimal_chars;
use crate::text::push_chars;
use crate::text::push_str_chars;
use crate::text::spec_decimal;
use crate::text::join_rows;
use crate::text::split_lines;
use crate::text::string_from_chars;
use crate::filetype::names_rust_file;
use crate::filetype::plain_options;
use crate::filetype::rust_options;

verus! {

broadcast use vstd::std_specs::vec::group_vec_axioms;

/// Which way an incremental search walks through the document.
#[derive(PartialEq, Eq, Structural, Clone, Copy, Debug)]
pub enum SearchDirection {
    Forward,
    Backward,
}

/// A position in the document: `x` is the character column, `y` the row.
#[derive(PartialEq, Eq, Structural, Clone, Copy, Debug)]
pub struct Position {
    pub x: usize,
    pub y: usize,
}

impl Default for Position {
    fn default() -> (p: Position)
        ensures
            p.x == 0 && p.y == 0,
    {
        Position { x: 0, y: 0 }
    }
}

/// A keystroke, as the editor core understands it; the terminal layer
/// translates the device's events into these.
#[derive(PartialEq, Eq, Structural, Clone, Copy, Debug)]
pub enum Key {
    Up,
    Down,
    Left,
    Right,
    PageUp,
    PageDown,
    Home,
    End,
    Enter,
    Tab,
    Backspace,
    Delete,
    Esc,
    Char(char),
    F(u8),
    Other,
}

#[verifier::external_type_specification]
#[verifier::external_body]
pub struct ExInstant(std::time::Instant);

/// Relies on std's `Instant::now` for an opaque moment in time; nothing is
/// assumed about its value.
#[verifier::external_body]
fn instant_now() -> (t: std::time::Instant) {
    std::time::Instant::now()
}

/// A message for the status bar, stamped with the moment it was set so the
/// view can let it expire.
pub struct StatusMessage {
    pub text: String,
    pub time: std::time::Instant,
}

impl StatusMessage {
    pub fn from(message: String) -> (m: StatusMessage)
        ensures
            m.text@ == message@,
    {
        StatusMessage { text: message, time: instant_now() }
    }
}

/// What the input loop should do after a keystroke has been applied.
#[derive(PartialEq, Eq, Structural, Clone, Copy, Debug)]
pub enum EditorAction {
    Continue,
    OpenSearch,
    OpenSave,
}

/// The length of row `y`, or zero past the end of the buffer.
pub open spec fn row_len_at(c: Seq<Seq<char>>, y: int) -> int {
    if 0 <= y < c.len() {
        c[y].len() as int
    } else {
        0
    }
}

/// A cursor position is valid when its row is at most one past the last row
/// and its column at most one past the row's last character.
pub open spec fn pos_valid(c: Seq<Seq<char>>, p: Position) -> bool {
    p.y <= c.len() && p.x <= row_len_at(c, p.y as int)
}

/// Where the cursor lands when `key` moves it: the arrow keys walk by
/// character and wrap across row ends, the page keys jump by one viewport
/// height `th`, Home and End go to the row's edges, and Tab hops four
/// columns; afterwards the column is clamped into the row arrived at.
pub open spec fn spec_move_cursor(c: Seq<Seq<char>>, th: int, p: Position, key: Key) -> (int, int) {
    let y0 = p.y as int;
    let x0 = p.x as int;
    let height = c.len() as int;
    let width = row_len_at(c, y0);
    let moved: (int, int) = match key {
        Key::Up => (x0, if y0 > 0 {
            y0 - 1
        } else {
            0
        }),
        Key::Down => (
            x0,
            if y0 < height {
                y0 + 1
            } else {
                y0
            },
        ),
        Key::Left => if x0 > 0 {
            (x0 - 1, y0)
        } else if y0 > 0 {
            (row_len_at(c, y0 - 1), y0 - 1)
        } else {
            (x0, y0)
        },
        Key::Right => if x0 < width {
            (x0 + 1, y0)
        } else if y0 < height {
            (0, y0 + 1)
        } else {
            (x0, y0)
        },
        Key::PageUp => (
            x0,
            if y0 > th {
                y0 - th
            } else {
                0
            },
        ),
        Key::PageDown => (
            x0,
            if y0 + th < height {
                y0 + th
            } else {
                height
            },
        ),
        Key::Home => (0, y0),
        Key::End => (width, y0),
        Key::Tab => if x0 < width {
            (x0 + 4, y0)
        } else if y0 < height {
            (0, y0 + 1)
        } else {
            (x0, y0)
        },
        _ => (x0, y0),
    };
    let w2 = row_len_at(c, moved.1);
    (
        if moved.0 > w2 {
            w2
        } else {
            moved.0
        },
        moved.1,
    )
}

/// Where one axis of the scroll offset moves so the cursor stays visible: a
/// cursor before the window pulls the window back to it, one past the
/// window's far edge pushes the window just far enough, anything inside
/// leaves it alone.
pub open spec fn spec_scroll_axis(pos: int, off: int, extent: int) -> int {
    if pos < off {
        pos
    } else if pos >= off + extent {
        let v = pos - extent + 1;
        if v <= usize::MAX {
            v
        } else {
            usize::MAX as int
        }
    } else {
        off
    }
}

/// The editor: the document, the terminal's dimensions, the cursor and
/// scroll state, the status message, the quit counter and the word an
/// active search keeps highlighted.
pub struct Editor {
    should_quit: bool,
    terminal: Terminal,
    cursor_position: Position,
    offset: Position,
    document: Document,
    status_message: StatusMessage,
    quit_times: u8,
    highlighted_word: Option<String>,
}

impl Editor {
    pub closed spec fn spec_document(&self) -> Document {
        self.document
    }

    pub closed spec fn spec_cursor(&self) -> Position {
        self.cursor_position
    }

    pub closed spec fn spec_offset(&self) -> Position {
        self.offset
    }

    pub closed spec fn spec_should_quit(&self) -> bool {
        self.should_quit
    }

    pub closed spec fn spec_quit_times(&self) -> int {
        self.quit_times as int
    }

    pub closed spec fn spec_status_text(&self) -> Seq<char> {
        self.status_message.text@
    }

    pub closed spec fn spec_highlighted_word(&self) -> Option<Seq<char>> {
        match self.highlighted_word {
            Option::Some(ref w) => Option::Some(w@),
            Option::None => Option::None,
        }
    }

    pub closed spec fn spec_terminal(&self) -> Terminal {
        self.terminal
    }

    /// The document's rows, for contracts.
    pub open spec fn rows(&self) -> Seq<Seq<char>> {
        self.spec_document().rows_view()
    }

    /// Well-formed: the document is, the cursor is valid in it, and the
    /// quit counter never exceeds its starting value.
    pub open spec fn wf(&self) -> bool {
        &&& self.spec_document().wf()
        &&& pos_valid(self.rows(), self.spec_cursor())
        &&& 0 <= self.spec_quit_times() <= 3
    }

    pub fn document(&self) -> (d: &Document)
        ensures
            *d == self.spec_document(),
    {
        &self.document
    }

    pub fn cursor_position(&self) -> (p: Position)
        ensures
            p == self.spec_cursor(),
    {
        self.cursor_position
    }

    pub fn offset(&self) -> (p: Position)
        ensures
            p == self.spec_offset(),
    {
        self.offset
    }

    pub fn should_quit(&self) -> (b: bool)
        ensures
            b == self.spec_should_quit(),
    {
        self.should_quit
    }

    pub fn quit_times(&self) -> (n: u8)
        ensures
            n as int == self.spec_quit_times(),
    {
        self.quit_times
    }

    pub fn status(&self) -> (m: &StatusMessage)
        ensures
            m.text@ == self.spec_status_text(),
    {
        &self.status_message
    }

    pub fn terminal(&self) -> (t: &Terminal)
        ensures
            *t == self.spec_terminal(),
    {
        &self.terminal
    }

    pub fn highlighted_word(&self) -> (w: &Option<String>)
        ensures
            match w {
                Option::Some(s) => self.spec_highlighted_word() == Option::Some(s@),
                Option::None => self.spec_highlighted_word() is None,
            },
    {
        &self.highlighted_word
    }

    /// Moves the cursor for one keystroke, exactly as `spec_move_cursor`
    /// says, and leaves it valid.
    pub fn move_cursor(&mut self, key: Key)
        requires
            old(self).wf(),
        ensures
            final(self).wf(),
            final(self).spec_cursor().x as int == spec_move_cursor(
                old(self).rows(),
                old(self).spec_terminal().spec_size().height as int,
                old(self).spec_cursor(),
                key,
            ).0,
            final(self).spec_cursor().y as int == spec_move_cursor(
                old(self).rows(),
                old(self).spec_terminal().spec_size().height as int,
                old(self).spec_cursor(),
                key,
            ).1,
            final(self).spec_document() == old(self).spec_document(),
            final(self).spec_offset() == old(self).spec_offset(),
            final(self).spec_should_quit() == old(self).spec_should_quit(),
            final(self).spec_quit_times() == old(self).spec_quit_times(),
            final(self).spec_status_text() == old(self).spec_status_text(),
            final(self).spec_highlighted_word() == old(self).spec_highlighted_word(),
            final(self).spec_terminal() == old(self).spec_terminal(),
    {
        let th: usize = self.terminal.size().height as usize;
        let height = self.document.len();
        let mut y = self.cursor_position.y;
        let mut x = self.cursor_position.x;
        let width = match self.document.row(y) {
            Option::Some(row) => row.len(),
            Option::None => 0,
        };
        match key {
            Key::Up => {
                if y > 0 {
                    y = y - 1;
                }
            },
            Key::Down => {
                if y < height {
                    y = y + 1;
                }
            },
            Key::Left => {
                if x > 0 {
                    x = x - 1;
                } else if y > 0 {
                    y = y - 1;
                    x = match self.document.row(y) {
                        Option::Some(row) => row.len(),
                        Option::None => 0,
                    };
                }
            },
            Key::Right => {
                if x < width {
                    x = x + 1;
                } else if y < height {
                    y = y + 1;
                    x = 0;
                }
            },
            Key::PageUp => {
                y = if y > th {
                    y - th
                } else {
                    0
                };
            },
            Key::PageDown => {
                y = if height - y > th {
                    y + th
                } else {
                    height
                };
            },
            Key::Home => {
                x = 0;
            },
            Key::End => {
                x = width;
            },
            Key::Tab => {
                if x < width {
                    x = if width - x >= 4 {
                        x + 4
                    } else {
                        width
                    };
                } else if y < height {
                    y = y + 1;
                    x = 0;
                }
            },
            _ => {
            },
        }
        let w2 = match self.document.row(y) {
            Option::Some(row) => row.len(),
            Option::None => 0,
        };
        if x > w2 {
            x = w2;
        }
        self.cursor_position = Position { x, y };
    }

    /// Slides the scroll offset the least amount that keeps the cursor
    /// inside the viewport, on both axes.
    pub fn scroll(&mut self)
        requires
            old(self).wf(),
        ensures
            final(self).wf(),
            final(self).spec_offset().x as int == spec_scroll_axis(
                old(self).spec_cursor().x as int,
                old(self).spec_offset().x as int,
                old(self).spec_terminal().spec_size().width as int,
            ),
            final(self).spec_offset().y as int == spec_scroll_axis(
                old(self).spec_cursor().y as int,
                old(self).spec_offset().y as int,
                old(self).spec_terminal().spec_size().height as int,
            ),
            final(self).spec_cursor() == old(self).spec_cursor(),
            final(self).spec_document() == old(self).spec_document(),
            final(self).spec_should_quit() == old(self).spec_should_quit(),
            final(self).spec_quit_times() == old(self).spec_quit_times(),
            final(self).spec_status_text() == old(self).spec_status_text(),
            final(self).spec_highlighted_word() == old(self).spec_highlighted_word(),
            final(self).spec_terminal() == old(self).spec_terminal(),
    {
        let x = self.cursor_position.x;
        let y = self.cursor_position.y;
        let width: usize = self.terminal.size().width as usize;
        let height: usize = self.terminal.size().height as usize;
        let mut off_x = self.offset.x;
        let mut off_y = self.offset.y;
        if y < off_y {
            off_y = y;
        } else if usize::MAX - height >= off_y && y >= off_y + height {
            let base = y - height;
            off_y = if base < usize::MAX {
                base + 1
            } else {
                usize::MAX
            };
        }
        if x < off_x {
            off_x = x;
        } else if usize::MAX - width >= off_x && x >= off_x + width {
            let base = x - width;
            off_x = if base < usize::MAX {
                base + 1
            } else {
                usize::MAX
            };
        }
        self.offset = Position { x: off_x, y: off_y };
    }
}

/// The digit character for a single-digit number.
pub open spec fn digit_char(n: u8) -> char {
    ((48 + n) as u8) as char
}

/// The warning shown when quitting with unsaved changes: the number of
/// further quit presses still needed is spliced into the middle.
fn warning_text(n: u8) -> (s: String)
    requires
        n <= 9,
    ensures
        s@ == "WARNING! File has unsaved changes. Press F8 "@ + seq![digit_char(n)]
            + " more times to quit."@,
{
    let mut v = chars_from_str("WARNING! File has unsaved changes. Press F8 ");
    let d: u8 = 48 + n;
    v.push(d as char);
    let tail = chars_from_str(" more times to quit.");
    let mut i: usize = 0;
    let ghost mid = v@;
    while i < tail.len()
        invariant
            i <= tail@.len(),
            v@ == mid + tail@.take(i as int),
        decreases tail@.len() - i,
    {
        proof {
            assert(mid + tail@.take(i + 1) =~= (mid + tail@.take(i as int)).push(tail@[i as int]));
        }
        v.push(tail[i]);
        i = i + 1;
    }
    proof {
        assert(tail@.take(tail@.len() as int) =~= tail@);
        assert(v@ =~= "WARNING! File has unsaved changes. Press F8 "@ + seq![digit_char(n)]
            + " more times to quit."@);
    }
    string_from_chars(&v)
}

impl Editor {
    /// Builds the editor as it starts up.  The collaborator has already
    /// parsed the command line and, when a path was given, tried to read the
    /// file: `file_contents` carries the text on success and nothing on
    /// failure, in which case an empty untitled document appears and the
    /// failure is surfaced as a status message.
    pub fn create(terminal: Terminal, file_arg: Option<String>, file_contents: Option<String>) -> (e:
        Editor)
        ensures
            e.wf(),
            !e.spec_should_quit(),
            e.spec_quit_times() == 3,
            e.spec_cursor() == (Position { x: 0, y: 0 }),
            e.spec_offset() == (Position { x: 0, y: 0 }),
            e.spec_highlighted_word() is None,
            e.spec_terminal() == terminal,
            match file_arg {
                Option::None => {
                    &&& e.rows().len() == 0
                    &&& e.spec_document().spec_file_name() is None
                    &&& !e.spec_document().spec_dirty()
                    &&& e.spec_status_text() == "HELP: F3 = find | F5 = save | F8 = quit"@
                },
                Option::Some(name) => match file_contents {
                    Option::Some(text) => {
                        &&& e.rows() == split_lines(text@)
                        &&& e.spec_document().spec_file_name() == Option::Some(name@)
                        &&& !e.spec_document().spec_dirty()
                        &&& e.spec_document().hls_view() == doc_highlights(
                            split_lines(text@),
                            e.spec_document().opts(),
                            Option::None,
                        )
                        &&& (names_rust_file(name@) ==> e.spec_document().opts() == rust_options())
                        &&& (!names_rust_file(name@) ==> e.spec_document().opts()
                            == plain_options())
                        &&& e.spec_status_text() == "HELP: F3 = find | F5 = save | F8 = quit"@
                    },
                    Option::None => {
                        &&& e.rows().len() == 0
                        &&& e.spec_document().spec_file_name() is None
                        &&& !e.spec_document().spec_dirty()
                        &&& e.spec_status_text() == "ERR: Could not open file: "@ + name@
                    },
                },
            },
    {
        let mut status_text = String::from_str("HELP: F3 = find | F5 = save | F8 = quit");
        let document = match file_arg {
            Option::None => Document::new(),
            Option::Some(name) => match file_contents {
                Option::Some(text) => Document::open(name.as_str(), text.as_str()),
                Option::None => {
                    let mut msg = String::from_str("ERR: Could not open file: ");
                    msg.append(name.as_str());
                    status_text = msg;
                    Document::new()
                },
            },
        };
        Editor {
            should_quit: false,
            terminal,
            cursor_position: Position { x: 0, y: 0 },
            offset: Position { x: 0, y: 0 },
            document,
            status_message: StatusMessage::from(status_text),
            quit_times: 3,
            highlighted_word: Option::None,
        }
    }

    /// Applies one keystroke: characters, Enter and Tab edit the buffer and
    /// advance the cursor, Delete and Backspace remove, the motion keys move
    /// the cursor, the find and save keys only hand an action back to the
    /// input loop, and quitting a dirty buffer takes three presses.  After
    /// the keystroke the viewport follows the cursor and an interrupted quit
    /// countdown is reset.
    pub fn process_key(&mut self, key: Key) -> (action: EditorAction)
        requires
            old(self).wf(),
        ensures
            final(self).wf(),
            final(self).spec_terminal() == old(self).spec_terminal(),
            final(self).spec_highlighted_word() == old(self).spec_highlighted_word(),
            action == (match key {
                Key::F(f) => if f == 3 {
                    EditorAction::OpenSearch
                } else if f == 5 {
                    EditorAction::OpenSave
                } else {
                    EditorAction::Continue
                },
                _ => EditorAction::Continue,
            }),
            ({
                let c0 = old(self).rows();
                let th = old(self).spec_terminal().spec_size().height as int;
                let p0 = old(self).spec_cursor();
                let warned = key == Key::F(8u8) && old(self).spec_quit_times() > 0 && old(
                    self,
                ).spec_document().spec_dirty();
                &&& (key == Key::F(8u8) && !warned ==> final(self).spec_should_quit())
                &&& (key != Key::F(8u8) ==> final(self).spec_should_quit() == old(
                    self,
                ).spec_should_quit())
                &&& (warned ==> {
                    &&& !final(self).spec_should_quit() == !old(self).spec_should_quit()
                    &&& final(self).spec_quit_times() == old(self).spec_quit_times() - 1
                    &&& final(self).spec_status_text() == "WARNING! File has unsaved changes. Press F8 "@
                        + seq![digit_char(old(self).spec_quit_times() as u8)]
                        + " more times to quit."@
                    &&& final(self).spec_document() == old(self).spec_document()
                    &&& final(self).spec_cursor() == p0
                    &&& final(self).spec_offset() == old(self).spec_offset()
                })
                &&& (!warned ==> {
                    &&& final(self).spec_quit_times() == 3
                    &&& (old(self).spec_quit_times() < 3 ==> final(self).spec_status_text()
                        == Seq::<char>::empty())
                    &&& (old(self).spec_quit_times() == 3 ==> final(self).spec_status_text() == old(
                        self,
                    ).spec_status_text())
                    &&& final(self).spec_offset().x as int == spec_scroll_axis(
                        final(self).spec_cursor().x as int,
                        old(self).spec_offset().x as int,
                        old(self).spec_terminal().spec_size().width as int,
                    )
                    &&& final(self).spec_offset().y as int == spec_scroll_axis(
                        final(self).spec_cursor().y as int,
                        old(self).spec_offset().y as int,
                        old(self).spec_terminal().spec_size().height as int,
                    )
                    &&& (match key {
                        Key::Enter => {
                            &&& final(self).rows() == doc_rows_after_insert(
                                c0,
                                p0.y as int,
                                p0.x as int,
                                '\n',
                            )
                            &&& final(self).spec_document().spec_dirty() == (old(
                                self,
                            ).spec_document().spec_dirty() || p0.y <= c0.len())
                            &&& final(self).spec_cursor().x as int == spec_move_cursor(
                                final(self).rows(),
                                th,
                                p0,
                                Key::Right,
                            ).0
                            &&& final(self).spec_cursor().y as int == spec_move_cursor(
                                final(self).rows(),
                                th,
                                p0,
                                Key::Right,
                            ).1
                        },
                        Key::Tab => {
                            &&& final(self).rows() == doc_rows_after_insert(
                                c0,
                                p0.y as int,
                                p0.x as int,
                                '\t',
                            )
                            &&& final(self).spec_document().spec_dirty() == (old(
                                self,
                            ).spec_document().spec_dirty() || p0.y <= c0.len())
                            &&& final(self).spec_cursor().x as int == spec_move_cursor(
                                final(self).rows(),
                                th,
                                p0,
                                Key::Tab,
                            ).0
                            &&& final(self).spec_cursor().y as int == spec_move_cursor(
                                final(self).rows(),
                                th,
                                p0,
                                Key::Tab,
                            ).1
                        },
                        Key::Char(ch) => {
                            &&& final(self).rows() == doc_rows_after_insert(
                                c0,
                                p0.y as int,
                                p0.x as int,
                                ch,
                            )
                            &&& final(self).spec_document().spec_dirty() == (old(
                                self,
                            ).spec_document().spec_dirty() || p0.y <= c0.len())
                            &&& final(self).spec_cursor().x as int == spec_move_cursor(
                                final(self).rows(),
                                th,
                                p0,
                                Key::Right,
                            ).0
                            &&& final(self).spec_cursor().y as int == spec_move_cursor(
                                final(self).rows(),
                                th,
                                p0,
                                Key::Right,
                            ).1
                        },
                        Key::Delete => {
                            &&& final(self).rows() == doc_rows_after_delete(
                                c0,
                                p0.y as int,
                                p0.x as int,
                            )
                            &&& final(self).spec_document().spec_dirty() == (old(
                                self,
                            ).spec_document().spec_dirty() || p0.y < c0.len())
                            &&& final(self).spec_cursor() == p0
                        },
                        Key::Backspace => {
                            if p0.x > 0 || p0.y > 0 {
                                let pm = spec_move_cursor(c0, th, p0, Key::Left);
                                &&& final(self).spec_cursor().x as int == pm.0
                                &&& final(self).spec_cursor().y as int == pm.1
                                &&& final(self).rows() == doc_rows_after_delete(c0, pm.1, pm.0)
                            } else {
                                &&& final(self).rows() == c0
                                &&& final(self).spec_cursor() == p0
                                &&& final(self).spec_document() == old(self).spec_document()
                            }
                        },
                        Key::Up | Key::Down | Key::Left | Key::Right | Key::PageUp | Key::PageDown
                            | Key::Home | Key::End => {
                            &&& final(self).rows() == c0
                            &&& final(self).spec_document() == old(self).spec_document()
                            &&& final(self).spec_cursor().x as int == spec_move_cursor(
                                c0,
                                th,
                                p0,
                                key,
                            ).0
                            &&& final(self).spec_cursor().y as int == spec_move_cursor(
                                c0,
                                th,
                                p0,
                                key,
                            ).1
                        },
                        _ => {
                            &&& final(self).rows() == c0
                            &&& final(self).spec_document() == old(self).spec_document()
                            &&& final(self).spec_cursor() == p0
                        },
                    })
                })
            }),
    {
        let mut action = EditorAction::Continue;
        match key {
            Key::F(f) => {
                if f == 8 {
                    if self.quit_times > 0 && self.document.is_dirty() {
                        let text = warning_text(self.quit_times);
                        self.status_message = StatusMessage::from(text);
                        self.quit_times = self.quit_times - 1;
                        return EditorAction::Continue;
                    }
                    self.should_quit = true;
                } else if f == 3 {
                    action = EditorAction::OpenSearch;
                } else if f == 5 {
                    action = EditorAction::OpenSave;
                }
            },
            Key::Enter => {
                let at = self.cursor_position;
                self.document.insert(&at, '\n');
                proof {
                    lemma_insert_keeps_cursor_valid(
                        old(self).rows(),
                        self.rows(),
                        self.cursor_position,
                        '\n',
                    );
                }
                self.move_cursor(Key::Right);
            },
            Key::Tab => {
                let at = self.cursor_position;
                self.document.insert(&at, '\t');
                proof {
                    lemma_insert_keeps_cursor_valid(
                        old(self).rows(),
                        self.rows(),
                        self.cursor_position,
                        '\t',
                    );
                }
                self.move_cursor(Key::Tab);
            },
            Key::Char(ch) => {
                let at = self.cursor_position;
                self.document.insert(&at, ch);
                proof {
                    lemma_insert_keeps_cursor_valid(
                        old(self).rows(),
                        self.rows(),
                        self.cursor_position,
                        ch,
                    );
                }
                self.move_cursor(Key::Right);
            },
            Key::Delete => {
                let at = self.cursor_position;
                self.document.delete(&at);
                proof {
                    lemma_delete_keeps_cursor_valid(
                        old(self).rows(),
                        self.rows(),
                        self.cursor_position,
                    );
                }
            },
            Key::Backspace => {
                if self.cursor_position.x > 0 || self.cursor_position.y > 0 {
                    self.move_cursor(Key::Left);
                    let at = self.cursor_position;
                    let ghost before = self.rows();
                    self.document.delete(&at);
                    proof {
                        lemma_delete_keeps_cursor_valid(before, self.rows(), self.cursor_position);
                    }
                }
            },
            Key::Up | Key::Down | Key::Left | Key::Right | Key::PageUp | Key::PageDown | Key::Home
                | Key::End => {
                self.move_cursor(key);
            },
            _ => {
            },
        }
        self.scroll();
        if self.quit_times < 3 {
            self.quit_times = 3;
            self.status_message = StatusMessage::from(String::new());
        }
        action
    }
}

impl Editor {
    /// The editor's part of saving.  When the document has no file name yet,
    /// `prompted_name` is the answer of the save-as prompt: nothing means
    /// the user aborted, and the save is abandoned with a status message.
    /// Otherwise the name is recorded (re-detecting the language) and the
    /// path and full contents are handed back for the collaborator to
    /// write; `record_save` then takes the outcome.
    pub fn save(&mut self, prompted_name: Option<String>) -> (r: Option<(String, String)>)
        requires
            old(self).wf(),
        ensures
            final(self).wf(),
            final(self).rows() == old(self).rows(),
            final(self).spec_document().hls_view() == old(self).spec_document().hls_view(),
            final(self).spec_document().spec_dirty() == old(self).spec_document().spec_dirty(),
            final(self).spec_cursor() == old(self).spec_cursor(),
            final(self).spec_offset() == old(self).spec_offset(),
            final(self).spec_should_quit() == old(self).spec_should_quit(),
            final(self).spec_quit_times() == old(self).spec_quit_times(),
            final(self).spec_highlighted_word() == old(self).spec_highlighted_word(),
            final(self).spec_terminal() == old(self).spec_terminal(),
            ({
                let had = old(self).spec_document().spec_file_name();
                match had {
                    Option::Some(n) => {
                        &&& r matches Option::Some(pc) && pc.0@ == n && pc.1@ == join_rows(
                            old(self).rows(),
                        )
                        &&& final(self).spec_document().spec_file_name() == had
                        &&& final(self).spec_document().opts() == old(self).spec_document().opts()
                        &&& final(self).spec_status_text() == old(self).spec_status_text()
                    },
                    Option::None => match prompted_name {
                        Option::None => {
                            &&& r is None
                            &&& final(self).spec_document().spec_file_name() is None
                            &&& final(self).spec_status_text() == "Save aborted: "@
                            &&& final(self).spec_document().opts() == old(
                                self,
                            ).spec_document().opts()
                        },
                        Option::Some(nm) => {
                            &&& r matches Option::Some(pc) && pc.0@ == nm@ && pc.1@ == join_rows(
                                old(self).rows(),
                            )
                            &&& final(self).spec_document().spec_file_name() == Option::Some(nm@)
                            &&& (names_rust_file(nm@) ==> final(self).spec_document().opts()
                                == rust_options())
                            &&& (!names_rust_file(nm@) ==> final(self).spec_document().opts()
                                == plain_options())
                            &&& final(self).spec_status_text() == old(self).spec_status_text()
                        },
                    },
                }
            }),
    {
        let has_name = match self.document.get_file_name() {
            Option::Some(_) => true,
            Option::None => false,
        };
        if !has_name {
            match prompted_name {
                Option::None => {
                    self.status_message = StatusMessage::from(String::from_str("Save aborted: "));
                    return Option::None;
                },
                Option::Some(nm) => {
                    self.document.set_file_name(Option::Some(nm));
                },
            }
        }
        match self.document.get_file_name() {
            Option::Some(n) => {
                let contents = self.document.contents();
                Option::Some((n, contents))
            },
            Option::None => Option::None,
        }
    }

    /// Notes the outcome of writing the file out: success makes the buffer
    /// clean and says so, failure leaves it dirty and reports the error.
    pub fn record_save(&mut self, ok: bool)
        requires
            old(self).wf(),
        ensures
            final(self).wf(),
            final(self).rows() == old(self).rows(),
            final(self).spec_document().hls_view() == old(self).spec_document().hls_view(),
            final(self).spec_document().spec_file_name() == old(
                self,
            ).spec_document().spec_file_name(),
            final(self).spec_document().opts() == old(self).spec_document().opts(),
            final(self).spec_document().spec_dirty() == (old(self).spec_document().spec_dirty()
                && !ok),
            final(self).spec_cursor() == old(self).spec_cursor(),
            final(self).spec_offset() == old(self).spec_offset(),
            final(self).spec_should_quit() == old(self).spec_should_quit(),
            final(self).spec_quit_times() == old(self).spec_quit_times(),
            final(self).spec_highlighted_word() == old(self).spec_highlighted_word(),
            final(self).spec_terminal() == old(self).spec_terminal(),
            ok ==> final(self).spec_status_text() == "File saved successfully."@,
            !ok ==> final(self).spec_status_text() == "Error writing file!"@,
    {
        self.document.record_save(ok);
        if ok {
            self.status_message = StatusMessage::from(String::from_str("File saved successfully."));
        } else {
            self.status_message = StatusMessage::from(String::from_str("Error writing file!"));
        }
    }

    /// Opens an interactive search: the cursor to restore on cancel.
    pub fn begin_search(&self) -> (saved: Position)
        ensures
            saved == self.spec_cursor(),
    {
        self.cursor_position
    }

    /// One keystroke of the interactive search, after the prompt has
    /// updated the query: Right and Down first step past the current match
    /// so the next one is found, Left and Up turn the search around; then
    /// the document is searched from the cursor.  A hit moves the cursor
    /// there and scrolls it into view; a miss undoes the step.  The query
    /// becomes the highlighted word either way.
    pub fn search_key(&mut self, key: Key, query: &String)
        requires
            old(self).wf(),
        ensures
            final(self).wf(),
            final(self).spec_document() == old(self).spec_document(),
            final(self).spec_should_quit() == old(self).spec_should_quit(),
            final(self).spec_quit_times() == old(self).spec_quit_times(),
            final(self).spec_status_text() == old(self).spec_status_text(),
            final(self).spec_terminal() == old(self).spec_terminal(),
            final(self).spec_highlighted_word() == Option::Some(query@),
            ({
                let c = old(self).rows();
                let th = old(self).spec_terminal().spec_size().height as int;
                let p0 = old(self).spec_cursor();
                let moved = key == Key::Right || key == Key::Down;
                let direction = if key == Key::Left || key == Key::Up {
                    SearchDirection::Backward
                } else {
                    SearchDirection::Forward
                };
                let stepped = spec_move_cursor(c, th, p0, Key::Right);
                let start = if moved {
                    Position { x: stepped.0 as usize, y: stepped.1 as usize }
                } else {
                    p0
                };
                if query@.len() > 0 && (exists|ry: int, cx: int|
                    0 <= ry < c.len() && #[trigger] match_at(c[ry], query@, cx)) {
                    &&& final(self).spec_cursor().y < c.len()
                    &&& match_at(
                        c[final(self).spec_cursor().y as int],
                        query@,
                        final(self).spec_cursor().x as int,
                    )
                    &&& forall|ry: int, cx: int|
                        0 <= ry < c.len() && #[trigger] match_at(c[ry], query@, cx)
                            ==> scan_no_later(
                            direction,
                            c.len() as int,
                            start,
                            query@.len() as int,
                            final(self).spec_cursor().y as int,
                            final(self).spec_cursor().x as int,
                            ry,
                            cx,
                        )
                    &&& final(self).spec_offset().x as int == spec_scroll_axis(
                        final(self).spec_cursor().x as int,
                        old(self).spec_offset().x as int,
                        old(self).spec_terminal().spec_size().width as int,
                    )
                    &&& final(self).spec_offset().y as int == spec_scroll_axis(
                        final(self).spec_cursor().y as int,
                        old(self).spec_offset().y as int,
                        old(self).spec_terminal().spec_size().height as int,
                    )
                } else {
                    &&& final(self).spec_offset() == old(self).spec_offset()
                    &&& (moved ==> {
                        let back = spec_move_cursor(
                            c,
                            th,
                            Position { x: stepped.0 as usize, y: stepped.1 as usize },
                            Key::Left,
                        );
                        final(self).spec_cursor().x as int == back.0
                            && final(self).spec_cursor().y as int == back.1
                    })
                    &&& (!moved ==> final(self).spec_cursor() == p0)
                }
            }),
    {
        let mut moved = false;
        let direction = match key {
            Key::Right | Key::Down => {
                self.move_cursor(Key::Right);
                moved = true;
                SearchDirection::Forward
            },
            Key::Left | Key::Up => SearchDirection::Backward,
            _ => SearchDirection::Forward,
        };
        let at = self.cursor_position;
        let found = self.document.find(query.as_str(), &at, direction);
        match found {
            Option::Some(p) => {
                proof {
                    assert(match_at(self.rows()[p.y as int], query@, p.x as int));
                    assert(p.x + query@.len() <= self.rows()[p.y as int].len());
                }
                self.cursor_position = p;
                self.scroll();
            },
            Option::None => {
                if moved {
                    self.move_cursor(Key::Left);
                }
            },
        }
        self.highlighted_word = Option::Some(query.clone());
    }

    /// Closes the search session: a cancelled search restores the cursor
    /// saved at entry and scrolls back to it; the highlighted word is
    /// cleared either way.
    pub fn end_search(&mut self, accepted: bool, saved: Position)
        requires
            old(self).wf(),
            pos_valid(old(self).rows(), saved),
        ensures
            final(self).wf(),
            final(self).spec_document() == old(self).spec_document(),
            final(self).spec_should_quit() == old(self).spec_should_quit(),
            final(self).spec_quit_times() == old(self).spec_quit_times(),
            final(self).spec_status_text() == old(self).spec_status_text(),
            final(self).spec_terminal() == old(self).spec_terminal(),
            final(self).spec_highlighted_word() is None,
            accepted ==> final(self).spec_cursor() == old(self).spec_cursor()
                && final(self).spec_offset() == old(self).spec_offset(),
            !accepted ==> final(self).spec_cursor() == saved && final(self).spec_offset().x as int
                == spec_scroll_axis(
                saved.x as int,
                old(self).spec_offset().x as int,
                old(self).spec_terminal().spec_size().width as int,
            ) && final(self).spec_offset().y as int == spec_scroll_axis(
                saved.y as int,
                old(self).spec_offset().y as int,
                old(self).spec_terminal().spec_size().height as int,
            ),
    {
        if !accepted {
            self.cursor_position = saved;
            self.scroll();
        }
        self.highlighted_word = Option::None;
    }

    /// Recomputes the highlighting of every row up to the bottom of the
    /// viewport, overlaying the word an active search holds, so that what
    /// the view paints is never stale.
    pub fn refresh_highlighting(&mut self)
        requires
            old(self).wf(),
        ensures
            final(self).wf(),
            final(self).rows() == old(self).rows(),
            final(self).spec_document().spec_dirty() == old(self).spec_document().spec_dirty(),
            final(self).spec_document().spec_file_name() == old(
                self,
            ).spec_document().spec_file_name(),
            final(self).spec_document().opts() == old(self).spec_document().opts(),
            final(self).spec_cursor() == old(self).spec_cursor(),
            final(self).spec_offset() == old(self).spec_offset(),
            final(self).spec_should_quit() == old(self).spec_should_quit(),
            final(self).spec_quit_times() == old(self).spec_quit_times(),
            final(self).spec_status_text() == old(self).spec_status_text(),
            final(self).spec_highlighted_word() == old(self).spec_highlighted_word(),
            final(self).spec_terminal() == old(self).spec_terminal(),
            ({
                let lim = highlight_limit(
                    Option::Some(spec_viewport_end(old(self))),
                    old(self).rows().len() as int,
                );
                &&& (forall|i: int|
                    0 <= i < lim ==> final(self).spec_document().hls_view()[i] == doc_highlights(
                        old(self).rows(),
                        old(self).spec_document().opts(),
                        old(self).spec_highlighted_word(),
                    )[i])
                &&& (forall|i: int|
                    lim <= i < old(self).rows().len() ==> final(self).spec_document().hls_view()[i]
                        == old(self).spec_document().hls_view()[i])
            }),
    {
        let height: usize = self.terminal.size().height as usize;
        let end: usize = if usize::MAX - height >= self.offset.y {
            self.offset.y + height
        } else {
            usize::MAX
        };
        let word = &self.highlighted_word;
        let ghost w = self.spec_highlighted_word();
        proof {
            assert(end as int == spec_viewport_end(&*old(self)));
            assert(word.deep_view() == w);
        }
        self.document.highlight(word, Option::Some(end));
    }
}

/// Text cut off at `n` characters.
pub open spec fn trunc(s: Seq<char>, n: int) -> Seq<char> {
    if s.len() <= n {
        s
    } else {
        s.take(n)
    }
}

/// A run of `n` spaces (none when `n` is not positive).
pub open spec fn spaces(n: int) -> Seq<char> {
    if n <= 0 {
        Seq::empty()
    } else {
        Seq::new(n as nat, |i: int| ' ')
    }
}

/// What the status bar shows: the file name (cut to twenty characters, or a
/// placeholder), the row count and a marker for unsaved changes on the
/// left; the language, the cursor's line and the row count on the right;
/// padding in between, the whole cut to the terminal width.
pub open spec fn spec_status_bar(e: &Editor) -> Seq<char> {
    let width = e.spec_terminal().spec_size().width as int;
    let name = match e.spec_document().spec_file_name() {
        Option::Some(n) => trunc(n, 20),
        Option::None => "[No Name]"@,
    };
    let modified = if e.spec_document().spec_dirty() {
        " (modified)"@
    } else {
        Seq::<char>::empty()
    };
    let line = if e.spec_cursor().y < usize::MAX {
        e.spec_cursor().y + 1
    } else {
        usize::MAX as int
    };
    let left = name + " - "@ + spec_decimal(e.rows().len() as int) + " lines "@ + modified;
    let right = e.spec_document().language_name() + " | "@ + spec_decimal(line) + " / "@
        + spec_decimal(e.rows().len() as int);
    trunc(left + spaces(width - left.len() - right.len()) + right, width)
}

impl Editor {
    /// Builds the status bar line, exactly as `spec_status_bar` lays it
    /// out; the view only paints it.
    pub fn status_bar_text(&self) -> (s: String)
        ensures
            s@ == spec_status_bar(self),
    {
        let width = self.terminal.size().width as usize;
        let mut left: Vec<char> = Vec::new();
        match self.document.get_file_name() {
            Option::Some(n) => {
                let name_chars = chars_from_str(n.as_str());
                if name_chars.len() <= 20 {
                    push_chars(&mut left, &name_chars);
                } else {
                    let mut i: usize = 0;
                    while i < 20
                        invariant
                            i <= 20,
                            name_chars@.len() > 20,
                            left@ =~= name_chars@.take(i as int),
                        decreases 20 - i,
                    {
                        left.push(name_chars[i]);
                        i = i + 1;
                    }
                }
            },
            Option::None => {
                push_str_chars(&mut left, "[No Name]");
            },
        }
        push_str_chars(&mut left, " - ");
        let count = decimal_chars(self.document.len());
        push_chars(&mut left, &count);
        push_str_chars(&mut left, " lines ");
        if self.document.is_dirty() {
            push_str_chars(&mut left, " (modified)");
        }
        let mut right: Vec<char> = Vec::new();
        let language = self.document.file_type();
        push_str_chars(&mut right, language.as_str());
        push_str_chars(&mut right, " | ");
        let y = self.cursor_position.y;
        let line: usize = if y < usize::MAX {
            y + 1
        } else {
            y
        };
        let line_chars = decimal_chars(line);
        push_chars(&mut right, &line_chars);
        push_str_chars(&mut right, " / ");
        push_chars(&mut right, &count);
        let llen = left.len();
        let rlen = right.len();
        let pad: usize = if width > llen && width - llen > rlen {
            width - llen - rlen
        } else {
            0
        };
        let ghost left0 = left@;
        let mut i: usize = 0;
        while i < pad
            invariant
                i <= pad,
                left@ =~= left0 + spaces(i as int),
            decreases pad - i,
        {
            proof {
                assert(left0 + spaces(i + 1) =~= (left0 + spaces(i as int)).push(' '));
            }
            left.push(' ');
            i = i + 1;
        }
        push_chars(&mut left, &right);
        proof {
            assert(spaces(pad as int) =~= spaces(
                self.spec_terminal().spec_size().width - left0.len() - right@.len(),
            ));
        }
        let mut out: Vec<char> = Vec::new();
        let total = left.len();
        let keep = if total <= width {
            total
        } else {
            width
        };
        let mut j: usize = 0;
        while j < keep
            invariant
                j <= keep,
                keep <= left@.len(),
                out@ =~= left@.take(j as int),
            decreases keep - j,
        {
            out.push(left[j]);
            j = j + 1;
        }
        proof {
            assert(out@ =~= trunc(left@, width as int));
        }
        string_from_chars(&out)
    }
}

/// The welcome banner an empty document shows: the editor's name and
/// version, centred behind the tilde of an empty row and cut to the width.
pub open spec fn spec_welcome(width: int) -> Seq<char> {
    let msg = "Voider -- version 0.1.0"@;
    let padding = if width >= msg.len() {
        (width - msg.len()) / 2
    } else {
        0
    };
    trunc("~"@ + spaces(padding - 1) + msg, width)
}

/// Builds the welcome banner for a viewport of the given width.
pub fn welcome_text(width: usize) -> (s: String)
    ensures
        s@ == spec_welcome(width as int),
{
    let msg = chars_from_str("Voider -- version 0.1.0");
    let len = msg.len();
    let padding: usize = if width >= len {
        (width - len) / 2
    } else {
        0
    };
    let pad: usize = if padding > 0 {
        padding - 1
    } else {
        0
    };
    let mut line: Vec<char> = Vec::new();
    push_str_chars(&mut line, "~");
    let ghost line0 = line@;
    let mut i: usize = 0;
    while i < pad
        invariant
            i <= pad,
            line@ =~= line0 + spaces(i as int),
        decreases pad - i,
    {
        proof {
            assert(line0 + spaces(i + 1) =~= (line0 + spaces(i as int)).push(' '));
        }
        line.push(' ');
        i = i + 1;
    }
    push_chars(&mut line, &msg);
    proof {
        assert(spaces(pad as int) =~= spaces(padding - 1));
    }
    let total = line.len();
    let keep = if total <= width {
        total
    } else {
        width
    };
    let mut out: Vec<char> = Vec::new();
    let mut j: usize = 0;
    while j < keep
        invariant
            j <= keep,
            keep <= line@.len(),
            out@ =~= line@.take(j as int),
        decreases keep - j,
    {
        out.push(line[j]);
        j = j + 1;
    }
    proof {
        assert(out@ =~= trunc(line@, width as int));
    }
    string_from_chars(&out)
}

/// The last document row the viewport can show: the scroll offset plus the
/// terminal height, saturating at the machine bound.
pub open spec fn spec_viewport_end(e: &Editor) -> usize {
    let v = e.spec_offset().y + e.spec_terminal().spec_size().height;
    if v <= usize::MAX {
        v as usize
    } else {
        usize::MAX
    }
}

/// A valid cursor stays valid across the insertion its own position asked
/// for.
proof fn lemma_insert_keeps_cursor_valid(c0: Seq<Seq<char>>, c1: Seq<Seq<char>>, p: Position, ch: char)
    requires
        pos_valid(c0, p),
        c1 == doc_rows_after_insert(c0, p.y as int, p.x as int, ch),
    ensures
        pos_valid(c1, p),
{
    let y = p.y as int;
    let x = p.x as int;
    if y > c0.len() {
    } else if ch == '\n' {
        if y == c0.len() {
            assert(c1[y] =~= Seq::<char>::empty());
        } else {
            let pcl = crate::document::clamp(x, c0[y].len() as int);
            assert(pcl == x);
            assert(c1[y] == c0[y].take(x));
        }
    } else {
        if y == c0.len() {
            assert(x == 0);
            assert(c1[y] =~= seq![ch]);
        } else {
            assert(c1[y] == c0[y].insert(crate::document::clamp(x, c0[y].len() as int), ch));
        }
    }
}

/// A valid cursor stays valid across the deletion its own position asked
/// for.
proof fn lemma_delete_keeps_cursor_valid(c0: Seq<Seq<char>>, c1: Seq<Seq<char>>, p: Position)
    requires
        pos_valid(c0, p),
        c1 == doc_rows_after_delete(c0, p.y as int, p.x as int),
    ensures
        pos_valid(c1, p),
{
    let y = p.y as int;
    let x = p.x as int;
    if 0 <= y < c0.len() {
        if x == c0[y].len() && y + 1 < c0.len() {
            assert(c1[y] == c0[y] + c0[y + 1]);
        } else {
            if 0 <= x < c0[y].len() {
                assert(c1[y] == c0[y].remove(x));
            } else {
                assert(c1[y] == c0[y]);
            }
        }
    }
}

} // verus!
