use vstd::prelude::*;
use crate::editor::Position;
use crate::editor::SearchDirection;
use crate::filetype::FileType;
use crate::filetype::OptionsView;
use crate::filetype::names_rust_file;
use crate::filetype::plain_options;
use crate::filetype::rust_options;
use crate::highlighting::HighlightState;
use crate::highlighting::Type;
use crate::highlighting::match_at;
use crate::highlighting::row_end_state;
use crate::highlighting::row_highlight;
use crate::row::Row;
use crate::text::chars_from_str;
use crate::text::join_rows;
use crate::text::lemma_split_join;
use crate::text::lemma_line_break_value;
use crate::text::split_lines;
use crate::text::string_from_chars;

verus! {

broadcast use vstd::std_specs::vec::group_vec_axioms;

/// The lexical state carried into row `i` of a document whose rows hold the
/// given contents: row 0 starts clean, and each row hands its end state to
/// the next.
pub open spec fn state_at(c: Seq<Seq<char>>, o: OptionsView, i: int) -> HighlightState
    decreases i,
{
    if i <= 0 {
        HighlightState::Normal
    } else {
        row_end_state(c[i - 1], state_at(c, o, i - 1), o)
    }
}

/// The classification of every row of a document: each row is classified
/// from its carried-in state, with the query overlaid.  This is a function
/// of the contents, the options and the query alone.
pub open spec fn doc_highlights(c: Seq<Seq<char>>, o: OptionsView, q: Option<Seq<char>>) -> Seq<
    Seq<Type>,
> {
    Seq::new(c.len(), |i: int| row_highlight(c[i], q, state_at(c, o, i), o))
}

/// An offset clamped to the length of a row.
pub open spec fn clamp(x: int, len: int) -> int {
    if x <= len {
        x
    } else {
        len
    }
}

/// The row contents after inserting `c` at `(y, x)`.  A line break splits
/// row `y` at the (clamped) column; at the phantom row just past the end a
/// fresh row appears; a position further out changes nothing.
pub open spec fn doc_rows_after_insert(rows: Seq<Seq<char>>, y: int, x: int, c: char) -> Seq<
    Seq<char>,
> {
    if y > rows.len() {
        rows
    } else if c == '\n' {
        if y == rows.len() {
            rows.push(Seq::empty())
        } else {
            let p = clamp(x, rows[y].len() as int);
            rows.take(y) + seq![rows[y].take(p), rows[y].skip(p)] + rows.skip(y + 1)
        }
    } else {
        if y == rows.len() {
            rows.push(seq![c])
        } else {
            rows.update(y, rows[y].insert(clamp(x, rows[y].len() as int), c))
        }
    }
}

/// The row contents after deleting at `(y, x)`: within a row the character
/// at `x` goes; at a row's very end the next row is merged in; anywhere
/// else nothing changes.
pub open spec fn doc_rows_after_delete(rows: Seq<Seq<char>>, y: int, x: int) -> Seq<Seq<char>> {
    if y < 0 || y >= rows.len() {
        rows
    } else if x == rows[y].len() && y + 1 < rows.len() {
        rows.take(y) + seq![rows[y] + rows[y + 1]] + rows.skip(y + 2)
    } else {
        rows.update(
            y,
            if 0 <= x < rows[y].len() {
                rows[y].remove(x)
            } else {
                rows[y]
            },
        )
    }
}

/// From "no newline in `s`" to element-wise facts and back; these two keep
/// the quantifier plumbing in one place.
proof fn no_nl_elems(s: Seq<char>)
    requires
        !s.contains('\n'),
    ensures
        forall|t: int| 0 <= t < s.len() ==> s[t] != '\n',
{
    assert forall|t: int| 0 <= t < s.len() implies s[t] != '\n' by {
        if s[t] == '\n' {
            assert(s.contains('\n'));
        }
    }
}

proof fn no_nl_intro(s: Seq<char>)
    requires
        forall|t: int| 0 <= t < s.len() ==> s[t] != '\n',
    ensures
        !s.contains('\n'),
{
    if s.contains('\n') {
        let t = choose|t: int| 0 <= t < s.len() && s[t] == '\n';
        assert(s[t] != '\n');
    }
}

/// The in-memory buffer: the ordered rows of text, the file they came from,
/// the language detected from its extension, and whether the buffer has
/// unsaved changes.
pub struct Document {
    rows: Vec<Row>,
    dirty: bool,
    file_name: Option<String>,
    file_type: FileType,
}

impl Document {
    /// The text of each row.
    pub closed spec fn rows_view(&self) -> Seq<Seq<char>> {
        Seq::new(self.rows@.len(), |i: int| self.rows@[i].chars())
    }

    /// The classification array of each row.
    pub closed spec fn hls_view(&self) -> Seq<Seq<Type>> {
        Seq::new(self.rows@.len(), |i: int| self.rows@[i].hl())
    }

    pub closed spec fn spec_dirty(&self) -> bool {
        self.dirty
    }

    pub closed spec fn spec_file_name(&self) -> Option<Seq<char>> {
        match self.file_name {
            Option::Some(ref n) => Option::Some(n@),
            Option::None => Option::None,
        }
    }

    /// The highlighting options of the document's language.
    pub closed spec fn opts(&self) -> OptionsView {
        self.file_type.hl_opts@
    }

    /// The name of the document's language.
    pub closed spec fn language_name(&self) -> Seq<char> {
        self.file_type.name@
    }

    /// Well-formed: each row's classification array is aligned with its
    /// text, and no row holds a newline (breaks live between rows, never in
    /// them).
    pub closed spec fn wf(&self) -> bool {
        &&& forall|i: int| 0 <= i < self.rows@.len() ==> (#[trigger] self.rows@[i]).wf()
        &&& forall|i: int|
            0 <= i < self.rows@.len() ==> !(#[trigger] self.rows@[i]).chars().contains('\n')
    }

    /// An empty, untitled, unmodified document.
    pub fn new() -> (d: Document)
        ensures
            d.wf(),
            d.rows_view().len() == 0,
            !d.spec_dirty(),
            d.spec_file_name() is None,
            d.opts() == plain_options(),
            d.language_name() == "No filetype"@,
    {
        let d = Document {
            rows: Vec::new(),
            dirty: false,
            file_name: Option::None,
            file_type: FileType::unknown(),
        };
        d
    }

    /// Builds the document for a file: the text the collaborator read from
    /// `file_name` (already checked to be valid text) becomes one row per
    /// line, the language is looked up from the name's extension, and a full
    /// highlight pass runs.  Reading the bytes, and falling back to an empty
    /// untitled document when that fails, is the collaborator's part.
    pub fn open(file_name: &str, contents: &str) -> (d: Document)
        ensures
            d.wf(),
            d.rows_view() == split_lines(contents@),
            !d.spec_dirty(),
            d.spec_file_name() == Option::Some(file_name@),
            names_rust_file(file_name@) ==> d.opts() == rust_options() && d.language_name()
                == "Rust"@,
            !names_rust_file(file_name@) ==> d.opts() == plain_options() && d.language_name()
                == "No filetype"@,
            d.hls_view() == doc_highlights(split_lines(contents@), d.opts(), Option::None),
    {
        let text = chars_from_str(contents);
        let ghost s = contents@;
        let mut rows: Vec<Row> = Vec::new();
        let mut cur: Vec<char> = Vec::new();
        let mut i: usize = 0;
        let mut b: usize = 0;
        let n = text.len();
        proof {
            assert(s.skip(0) =~= s);
            assert(cur@ =~= s.subrange(0, 0));
        }
        while i < n
            invariant
                b <= i <= n,
                n == s.len(),
                text@ == s,
                cur@ == s.subrange(b as int, i as int),
                forall|j: int| b <= j < i ==> s[j] != '\n',
                split_lines(s) =~= Seq::new(rows@.len(), |k: int| rows@[k].chars()) + split_lines(
                    s.skip(b as int),
                ),
                forall|k: int| 0 <= k < rows@.len() ==> (#[trigger] rows@[k]).wf(),
                forall|k: int|
                    0 <= k < rows@.len() ==> !(#[trigger] rows@[k]).chars().contains('\n'),
            decreases n - i,
        {
            let ch = text[i];
            if ch == '\n' {
                let ghost rows0 = Seq::new(rows@.len(), |k: int| rows@[k].chars());
                proof {
                    let tail = s.skip(b as int);
                    assert(tail.len() > 0);
                    assert forall|j: int| 0 <= j < i - b implies tail[j] != '\n' by {
                        assert(tail[j] == s[b + j]);
                    }
                    assert(tail[i - b] == '\n');
                    lemma_line_break_value(tail, 0, i - b);
                    assert(split_lines(tail) == seq![tail.take(i - b)] + split_lines(
                        tail.skip(i - b + 1),
                    ));
                    assert(tail.take(i - b) =~= cur@);
                    assert(tail.skip(i - b + 1) =~= s.skip(i + 1));
                }
                let row = Row::from_chars(cur);
                rows.push(row);
                proof {
                    assert(Seq::new(rows@.len(), |k: int| rows@[k].chars()) =~= rows0.push(cur@));
                    assert(rows0.push(cur@) + split_lines(s.skip(i + 1)) =~= rows0 + (seq![cur@]
                        + split_lines(s.skip(i + 1))));
                    no_nl_intro(cur@);
                }
                cur = Vec::new();
                b = i + 1;
            } else {
                cur.push(ch);
                proof {
                    assert(cur@ =~= s.subrange(b as int, i + 1));
                }
            }
            i = i + 1;
        }
        if cur.len() > 0 {
            let ghost rows0 = Seq::new(rows@.len(), |k: int| rows@[k].chars());
            proof {
                let tail = s.skip(b as int);
                assert(tail =~= cur@);
                assert(tail.len() > 0);
                assert forall|j: int| 0 <= j < tail.len() implies tail[j] != '\n' by {
                    assert(tail[j] == s[b + j]);
                }
                lemma_line_break_value(tail, 0, tail.len() as int);
                assert(split_lines(tail) == seq![tail]);
                no_nl_intro(cur@);
            }
            let row = Row::from_chars(cur);
            rows.push(row);
            proof {
                assert(Seq::new(rows@.len(), |k: int| rows@[k].chars()) =~= rows0.push(cur@));
                assert(rows0.push(cur@) =~= rows0 + seq![cur@]);
            }
        } else {
            proof {
                assert(s.skip(b as int) =~= Seq::<char>::empty());
                assert(split_lines(s.skip(b as int)) =~= Seq::<Seq<char>>::empty());
            }
        }
        let mut d = Document {
            rows,
            dirty: false,
            file_name: Option::Some(String::from_str(file_name)),
            file_type: FileType::from(file_name),
        };
        proof {
            assert(d.rows_view() =~= split_lines(s));
        }
        let none_query: Option<String> = Option::None;
        d.highlight(&none_query, Option::None);
        proof {
            assert(d.hls_view() =~= doc_highlights(split_lines(s), d.opts(), Option::None));
        }
        d
    }

    /// The number of rows.
    pub fn len(&self) -> (n: usize)
        ensures
            n == self.rows_view().len(),
    {
        self.rows.len()
    }

    pub fn is_empty(&self) -> (b: bool)
        ensures
            b == (self.rows_view().len() == 0),
    {
        self.rows.len() == 0
    }

    /// Whether the buffer differs from its last successfully saved state.
    pub fn is_dirty(&self) -> (b: bool)
        ensures
            b == self.spec_dirty(),
    {
        self.dirty
    }

    /// The name of the language the document is highlighted as.
    pub fn file_type(&self) -> (s: String)
        ensures
            s@ == self.language_name(),
    {
        self.file_type.name.clone()
    }

    pub fn get_file_name(&self) -> (r: Option<String>)
        ensures
            match r {
                Option::Some(n) => self.spec_file_name() == Option::Some(n@),
                Option::None => self.spec_file_name() is None,
            },
    {
        match &self.file_name {
            Option::Some(n) => Option::Some(n.clone()),
            Option::None => Option::None,
        }
    }

    /// Gives the document a (new) file name and looks its language up again,
    /// as when the user answers a save-as prompt.
    pub fn set_file_name(&mut self, name: Option<String>)
        requires
            old(self).wf(),
        ensures
            final(self).wf(),
            final(self).rows_view() == old(self).rows_view(),
            final(self).hls_view() == old(self).hls_view(),
            final(self).spec_dirty() == old(self).spec_dirty(),
            match name {
                Option::Some(n) => {
                    &&& final(self).spec_file_name() == Option::Some(n@)
                    &&& names_rust_file(n@) ==> final(self).opts() == rust_options()
                        && final(self).language_name() == "Rust"@
                    &&& !names_rust_file(n@) ==> final(self).opts() == plain_options()
                        && final(self).language_name() == "No filetype"@
                },
                Option::None => {
                    &&& final(self).spec_file_name() is None
                    &&& final(self).opts() == old(self).opts()
                    &&& final(self).language_name() == old(self).language_name()
                },
            },
    {
        match &name {
            Option::Some(n) => {
                self.file_type = FileType::from(n.as_str());
            },
            Option::None => {
            },
        }
        self.file_name = name;
    }

    /// The row at `index`, or nothing past the end.
    pub fn row(&self, index: usize) -> (r: Option<&Row>)
        requires
            self.wf(),
        ensures
            match r {
                Option::Some(row) => {
                    &&& index < self.rows_view().len()
                    &&& row.chars() == self.rows_view()[index as int]
                    &&& row.hl() == self.hls_view()[index as int]
                    &&& row.wf()
                },
                Option::None => index >= self.rows_view().len(),
            },
    {
        if index < self.rows.len() {
            Option::Some(&self.rows[index])
        } else {
            Option::None
        }
    }

    /// Inserts `c` at `position`: a line break splits the row in two, any
    /// other character lands in the row at the (clamped) column, and the
    /// phantom row just past the end grows a fresh row.  Any edit that
    /// touches the buffer marks it dirty.
    pub fn insert(&mut self, at: &Position, c: char)
        requires
            old(self).wf(),
        ensures
            final(self).wf(),
            final(self).rows_view() == doc_rows_after_insert(
                old(self).rows_view(),
                at.y as int,
                at.x as int,
                c,
            ),
            final(self).spec_dirty() == (old(self).spec_dirty() || at.y
                <= old(self).rows_view().len()),
            final(self).spec_file_name() == old(self).spec_file_name(),
            final(self).opts() == old(self).opts(),
            final(self).language_name() == old(self).language_name(),
    {
        let ghost c0 = self.rows_view();
        let n = self.rows.len();
        if at.y > n {
            return ;
        }
        self.dirty = true;
        if c == '\n' {
            if at.y == n {
                self.rows.push(Row::new());
                proof {
                    assert(self.rows_view() =~= c0.push(Seq::empty()));
                }
            } else {
                let rest = self.rows[at.y].split(at.x);
                self.rows.insert(at.y + 1, rest);
                proof {
                    let y = at.y as int;
                    let p = clamp(at.x as int, c0[y].len() as int);
                    assert(self.rows_view() =~= c0.take(y) + seq![c0[y].take(p), c0[y].skip(p)]
                        + c0.skip(y + 1));
                    assert forall|k: int|
                        0 <= k < self.rows@.len() implies !(#[trigger] self.rows@[k]).chars()
                        .contains('\n') by {
                        if k == y || k == y + 1 {
                            assert(!c0[y].contains('\n'));
                            no_nl_elems(c0[y]);
                            no_nl_intro(self.rows@[k].chars());
                        }
                    }
                }
            }
        } else {
            if at.y == n {
                let mut row = Row::new();
                row.insert(0, c);
                self.rows.push(row);
                proof {
                    assert(row.chars() =~= seq![c]);
                    assert(self.rows_view() =~= c0.push(seq![c]));
                }
            } else {
                self.rows[at.y].insert(at.x, c);
                proof {
                    let y = at.y as int;
                    let p = clamp(at.x as int, c0[y].len() as int);
                    if at.x <= c0[y].len() {
                        assert(self.rows@[y].chars() == c0[y].insert(p, c));
                    } else {
                        assert(self.rows@[y].chars() == c0[y].push(c));
                        assert(c0[y].push(c) =~= c0[y].insert(p, c));
                    }
                    assert(self.rows_view() =~= c0.update(y, c0[y].insert(p, c)));
                    assert forall|k: int|
                        0 <= k < self.rows@.len() implies !(#[trigger] self.rows@[k]).chars()
                        .contains('\n') by {
                        if k == y {
                            assert(!c0[y].contains('\n'));
                            no_nl_elems(c0[y]);
                            no_nl_intro(self.rows@[k].chars());
                        }
                    }
                }
            }
        }
    }

    /// Deletes at `position`: the character under the cursor goes; at the
    /// very end of a row the next row is merged into it; past the buffer
    /// nothing happens at all.
    pub fn delete(&mut self, at: &Position)
        requires
            old(self).wf(),
        ensures
            final(self).wf(),
            final(self).rows_view() == doc_rows_after_delete(
                old(self).rows_view(),
                at.y as int,
                at.x as int,
            ),
            final(self).spec_dirty() == (old(self).spec_dirty() || at.y < old(
                self,
            ).rows_view().len()),
            final(self).spec_file_name() == old(self).spec_file_name(),
            final(self).opts() == old(self).opts(),
            final(self).language_name() == old(self).language_name(),
    {
        let ghost c0 = self.rows_view();
        let n = self.rows.len();
        if at.y >= n {
            return ;
        }
        self.dirty = true;
        let row_len = self.rows[at.y].len();
        if at.x == row_len && at.y + 1 < n {
            let next = self.rows.remove(at.y + 1);
            self.rows[at.y].append(&next);
            proof {
                let y = at.y as int;
                assert(self.rows_view() =~= c0.take(y) + seq![c0[y] + c0[y + 1]] + c0.skip(y + 2));
                assert forall|k: int|
                    0 <= k < self.rows@.len() implies !(#[trigger] self.rows@[k]).chars().contains(
                    '\n',
                ) by {
                    if k == y {
                        no_nl_elems(c0[y]);
                        no_nl_elems(c0[y + 1]);
                        no_nl_intro(self.rows@[k].chars());
                    }
                }
            }
        } else {
            self.rows[at.y].delete(at.x);
            proof {
                let y = at.y as int;
                if at.x < c0[y].len() {
                    assert(self.rows@[y].chars() == c0[y].remove(at.x as int));
                    assert forall|k: int|
                        0 <= k < self.rows@.len() implies !(#[trigger] self.rows@[k]).chars()
                        .contains('\n') by {
                        if k == y {
                            no_nl_elems(c0[y]);
                            no_nl_intro(self.rows@[k].chars());
                        }
                    }
                }
                assert(self.rows_view() =~= doc_rows_after_delete(c0, y, at.x as int));
            }
        }
    }

    /// Notes the outcome the collaborator reports for writing `contents()`
    /// out: a successful save is the one thing that makes the buffer clean
    /// again, a failed one leaves it dirty.
    pub fn record_save(&mut self, ok: bool)
        requires
            old(self).wf(),
        ensures
            final(self).wf(),
            final(self).rows_view() == old(self).rows_view(),
            final(self).hls_view() == old(self).hls_view(),
            final(self).spec_file_name() == old(self).spec_file_name(),
            final(self).opts() == old(self).opts(),
            final(self).language_name() == old(self).language_name(),
            final(self).spec_dirty() == (old(self).spec_dirty() && !ok),
    {
        if ok {
            self.dirty = false;
        }
    }

    /// The whole buffer as the text that would be written out: the rows
    /// joined by single newlines.
    pub fn contents(&self) -> (s: String)
        ensures
            s@ == join_rows(self.rows_view()),
    {
        let ghost c = self.rows_view();
        let mut out: Vec<char> = Vec::new();
        let mut i: usize = 0;
        let n = self.rows.len();
        while i < n
            invariant
                i <= n,
                n == c.len(),
                c == self.rows_view(),
                out@ == join_rows(c.take(i as int)),
            decreases n - i,
        {
            if i > 0 {
                out.push('\n');
            }
            let mut j: usize = 0;
            let ghost mid = out@;
            let row = &self.rows[i];
            let m = row.len();
            proof {
                assert(row.chars() == c[i as int]);
            }
            while j < m
                invariant
                    j <= m,
                    m == row.chars().len(),
                    row.chars() == c[i as int],
                    out@ == mid + c[i as int].take(j as int),
                decreases m - j,
            {
                proof {
                    assert(mid + c[i as int].take(j + 1) =~= (mid + c[i as int].take(j as int)).push(
                        c[i as int][j as int],
                    ));
                }
                out.push(row.char_at(j));
                j = j + 1;
            }
            proof {
                assert(out@ =~= mid + c[i as int]);
                lemma_join_take_step(c, i as int);
            }
            i = i + 1;
        }
        proof {
            assert(c.take(n as int) =~= c);
        }
        string_from_chars(&out)
    }
}

/// The place of a match position in the wrapped forward scan started at
/// `at` over `n` rows: the start row from the start column comes first, the
/// rows below it next, and the wrap pass revisits the rows from the top,
/// the start row (now from column zero) last.
pub open spec fn fwd_rank(n: int, at: Position, y: int, x: int) -> int {
    if (at.y as int) < n {
        if y == at.y && x >= at.x {
            0
        } else if y > at.y {
            y - at.y
        } else if y < at.y {
            n - at.y + y
        } else {
            n
        }
    } else {
        y
    }
}

/// The mirror for the backward scan: matches on the start row lying wholly
/// before the cursor come first, the rows above next, then the wrap from
/// the bottom back down to the start row.
pub open spec fn bwd_rank(n: int, at: Position, q_len: int, y: int, x: int) -> int {
    if (at.y as int) < n {
        if y == at.y && x + q_len <= at.x {
            0
        } else if y < at.y {
            at.y - y
        } else if y > at.y {
            at.y + n - y
        } else {
            n
        }
    } else {
        n - 1 - y
    }
}

/// In the scan order of `direction` started at `at`, position `(y1, x1)`
/// comes no later than `(y2, x2)`: its row is visited earlier, or they
/// share a visit and the intra-row tie-break (leftmost forward, rightmost
/// backward) prefers it.
pub open spec fn scan_no_later(
    direction: SearchDirection,
    n: int,
    at: Position,
    q_len: int,
    y1: int,
    x1: int,
    y2: int,
    x2: int,
) -> bool {
    match direction {
        SearchDirection::Forward => fwd_rank(n, at, y1, x1) < fwd_rank(n, at, y2, x2) || (fwd_rank(
            n,
            at,
            y1,
            x1,
        ) == fwd_rank(n, at, y2, x2) && x1 <= x2),
        SearchDirection::Backward => bwd_rank(n, at, q_len, y1, x1) < bwd_rank(
            n,
            at,
            q_len,
            y2,
            x2,
        ) || (bwd_rank(n, at, q_len, y1, x1) == bwd_rank(n, at, q_len, y2, x2) && x1 >= x2),
    }
}

impl Document {
    /// Case-sensitive substring search with at most one full wrap.  Forward,
    /// rows `at.y ..` are scanned (the first from column `at.x`) and then,
    /// wrapping, rows `0 ..= at.y` from their starts; backward the mirror
    /// image, preferring the rightmost match before the cursor.  A match is
    /// returned exactly when the query is non-empty and occurs anywhere in
    /// the document — an empty query finds nothing — and it is the first
    /// match the scan order meets.
    pub fn find(&self, query: &str, at: &Position, direction: SearchDirection) -> (r: Option<
        Position,
    >)
        ensures
            match r {
                Option::Some(p) => {
                    &&& query@.len() > 0
                    &&& p.y < self.rows_view().len()
                    &&& match_at(self.rows_view()[p.y as int], query@, p.x as int)
                    &&& forall|ry: int, cx: int|
                        0 <= ry < self.rows_view().len() && #[trigger] match_at(
                            self.rows_view()[ry],
                            query@,
                            cx,
                        ) ==> scan_no_later(
                            direction,
                            self.rows_view().len() as int,
                            *at,
                            query@.len() as int,
                            p.y as int,
                            p.x as int,
                            ry,
                            cx,
                        )
                },
                Option::None => query@.len() == 0 || forall|ry: int, cx: int|
                    0 <= ry < self.rows_view().len() ==> !(#[trigger] match_at(
                        self.rows_view()[ry],
                        query@,
                        cx,
                    )),
            },
    {
        let ghost c = self.rows_view();
        if query.unicode_len() == 0 {
            return Option::None;
        }
        let n = self.rows.len();
        if n == 0 {
            return Option::None;
        }
        match direction {
            SearchDirection::Forward => {
                if at.y < n {
                    if let Option::Some(x) = self.rows[at.y].find(
                        query,
                        at.x,
                        SearchDirection::Forward,
                    ) {
                        return Option::Some(Position { x, y: at.y });
                    }
                    let mut y = at.y + 1;
                    while y < n
                        invariant
                            at.y < y <= n,
                            n == self.rows@.len(),
                            c == self.rows_view(),
                            query@.len() > 0,
                            direction is Forward,
                            forall|cx: int|
                                cx >= at.x ==> !(#[trigger] match_at(c[at.y as int], query@, cx)),
                            forall|ry: int, cx: int|
                                at.y < ry < y ==> !(#[trigger] match_at(c[ry], query@, cx)),
                        decreases n - y,
                    {
                        if let Option::Some(x) = self.rows[y].find(
                            query,
                            0,
                            SearchDirection::Forward,
                        ) {
                            return Option::Some(Position { x, y });
                        }
                        y = y + 1;
                    }
                }
                let stop = if at.y < n {
                    at.y
                } else {
                    n - 1
                };
                let mut y: usize = 0;
                while y <= stop
                    invariant
                        y <= stop + 1,
                        stop < n,
                        n == self.rows@.len(),
                        c == self.rows_view(),
                        query@.len() > 0,
                        forall|ry: int, cx: int| 0 <= ry < y ==> !(#[trigger] match_at(c[ry], query@, cx)),
                        at.y < n ==> forall|ry: int, cx: int|
                            at.y < ry < n ==> !(#[trigger] match_at(c[ry], query@, cx)),
                        direction is Forward,
                        at.y < n ==> forall|cx: int|
                            cx >= at.x ==> !(#[trigger] match_at(c[at.y as int], query@, cx)),
                        stop == if at.y < n {
                            at.y as int
                        } else {
                            n - 1
                        },
                    decreases stop + 1 - y,
                {
                    if let Option::Some(x) = self.rows[y].find(query, 0, SearchDirection::Forward) {
                        return Option::Some(Position { x, y });
                    }
                    y = y + 1;
                }
                Option::None
            },
            SearchDirection::Backward => {
                if at.y < n {
                    if let Option::Some(x) = self.rows[at.y].find(
                        query,
                        at.x,
                        SearchDirection::Backward,
                    ) {
                        return Option::Some(Position { x, y: at.y });
                    }
                    let mut y = at.y;
                    while y > 0
                        invariant
                            y <= at.y < n,
                            n == self.rows@.len(),
                            c == self.rows_view(),
                            query@.len() > 0,
                            direction is Backward,
                            forall|cx: int|
                                cx + query@.len() <= at.x ==> !(#[trigger] match_at(
                                    c[at.y as int],
                                    query@,
                                    cx,
                                )),
                            forall|ry: int, cx: int|
                                y <= ry < at.y ==> !(#[trigger] match_at(c[ry], query@, cx)),
                        decreases y,
                    {
                        y = y - 1;
                        let upto = self.rows[y].len();
                        if let Option::Some(x) = self.rows[y].find(
                            query,
                            upto,
                            SearchDirection::Backward,
                        ) {
                            return Option::Some(Position { x, y });
                        }
                    }
                }
                let lowest = if at.y < n {
                    at.y
                } else {
                    0
                };
                let mut y: usize = n;
                while y > lowest
                    invariant
                        lowest <= y <= n,
                        lowest < n,
                        n == self.rows@.len(),
                        c == self.rows_view(),
                        query@.len() > 0,
                        forall|ry: int, cx: int| y <= ry < n ==> !(#[trigger] match_at(c[ry], query@, cx)),
                        at.y < n ==> forall|ry: int, cx: int|
                            0 <= ry < at.y ==> !(#[trigger] match_at(c[ry], query@, cx)),
                        direction is Backward,
                        at.y < n ==> forall|cx: int|
                            cx + query@.len() <= at.x ==> !(#[trigger] match_at(
                                c[at.y as int],
                                query@,
                                cx,
                            )),
                        lowest == if at.y < n {
                            at.y as int
                        } else {
                            0
                        },
                    decreases y,
                {
                    y = y - 1;
                    let upto = self.rows[y].len();
                    if let Option::Some(x) = self.rows[y].find(
                        query,
                        upto,
                        SearchDirection::Backward,
                    ) {
                        return Option::Some(Position { x, y });
                    }
                }
                Option::None
            },
        }
    }
}

/// The number of rows a highlight pass touches: all of them, or the
/// caller's limit when that is smaller.
pub open spec fn highlight_limit(until: Option<usize>, len: int) -> int {
    match until {
        Option::Some(u) => if u <= len {
            u as int
        } else {
            len
        },
        Option::None => len,
    }
}

impl Document {
    /// Recomputes the classification of rows `0 .. limit`, carrying the
    /// lexical state across row boundaries and overlaying every occurrence
    /// of `word`; rows past the limit keep their previous classification.
    /// Nothing but the classification arrays changes.
    pub fn highlight(&mut self, word: &Option<String>, until: Option<usize>)
        requires
            old(self).wf(),
        ensures
            final(self).wf(),
            final(self).rows_view() == old(self).rows_view(),
            final(self).spec_dirty() == old(self).spec_dirty(),
            final(self).spec_file_name() == old(self).spec_file_name(),
            final(self).opts() == old(self).opts(),
            final(self).language_name() == old(self).language_name(),
            forall|i: int|
                0 <= i < highlight_limit(until, old(self).rows_view().len() as int)
                    ==> final(self).hls_view()[i] == doc_highlights(
                    old(self).rows_view(),
                    old(self).opts(),
                    word.deep_view(),
                )[i],
            forall|i: int|
                highlight_limit(until, old(self).rows_view().len() as int) <= i < old(
                    self,
                ).rows_view().len() ==> final(self).hls_view()[i] == old(self).hls_view()[i],
    {
        let ghost c = self.rows_view();
        let ghost o = self.opts();
        let n = self.rows.len();
        let m = match until {
            Option::Some(u) => if u <= n {
                u
            } else {
                n
            },
            Option::None => n,
        };
        let qchars: Option<Vec<char>> = match word {
            Option::Some(w) => Option::Some(chars_from_str(w.as_str())),
            Option::None => Option::None,
        };
        proof {
            assert(qchars.deep_view() =~~= word.deep_view());
        }
        let mut st = HighlightState::Normal;
        let mut i: usize = 0;
        while i < m
            invariant
                i <= m,
                m as int == highlight_limit(until, c.len() as int),
                m <= n,
                n == self.rows@.len(),
                c == old(self).rows_view(),
                o == old(self).opts(),
                self.rows_view() == c,
                self.spec_dirty() == old(self).spec_dirty(),
                self.spec_file_name() == old(self).spec_file_name(),
                self.opts() == old(self).opts(),
                self.language_name() == old(self).language_name(),
                self.file_type == old(self).file_type,
                qchars.deep_view() == word.deep_view(),
                st == state_at(c, o, i as int),
                forall|j: int|
                    0 <= j < i ==> (#[trigger] self.rows@[j]).hl() == doc_highlights(
                        c,
                        o,
                        word.deep_view(),
                    )[j],
                forall|j: int| i <= j < n ==> self.rows@[j] == old(self).rows@[j],
                forall|j: int| 0 <= j < n ==> (#[trigger] self.rows@[j]).wf(),
                forall|j: int|
                    0 <= j < n ==> !(#[trigger] self.rows@[j]).chars().contains('\n'),
            decreases m - i,
        {
            let ghost before = self.rows@;
            let out = self.rows[i].highlight(&self.file_type.hl_opts, &qchars, st);
            proof {
                assert(self.rows_view() =~= c);
                assert(self.rows@[i as int].hl() == row_highlight(
                    c[i as int],
                    word.deep_view(),
                    state_at(c, o, i as int),
                    o,
                ));
                assert(out == row_end_state(c[i as int], state_at(c, o, i as int), o));
                assert(state_at(c, o, i + 1) == row_end_state(
                    c[i as int],
                    state_at(c, o, i as int),
                    o,
                ));
            }
            st = out;
            i = i + 1;
        }
    }
}

/// Idempotence of highlighting: the classification of a document is a
/// function of its row contents, its language options and the query alone,
/// so recomputing it with nothing changed yields the identical arrays.
/// Together with `highlight`'s contract — it rewrites each recomputed row's
/// classification to `doc_highlights` of the unchanged contents — a second
/// pass over the same rows reproduces the first.
pub proof fn lemma_highlight_idempotent(
    c1: Seq<Seq<char>>,
    c2: Seq<Seq<char>>,
    o: OptionsView,
    q: Option<Seq<char>>,
)
    requires
        c1 == c2,
    ensures
        doc_highlights(c1, o, q) == doc_highlights(c2, o, q),
{
}

/// Round trip: writing a document out (`contents()`, the rows joined by
/// newlines) and opening what was written (`open`, which splits at
/// newlines) reproduces the very same rows — provided the final row is not
/// empty, the one shape the on-disk form cannot retain.
pub proof fn lemma_save_open_round_trip(d: Document)
    requires
        d.wf(),
        d.rows_view().len() == 0 || d.rows_view().last().len() > 0,
    ensures
        split_lines(join_rows(d.rows_view())) == d.rows_view(),
{
    lemma_split_join(d.rows_view());
}

/// Search wrap: in a document holding exactly one occurrence `p0` of a
/// non-empty query, any outcome `find` is allowed to return — from any
/// start position, in either direction, after at most its one wrap — is
/// `p0` itself.  (`find`'s contract further gives that an empty query
/// returns nothing.)
pub proof fn lemma_search_wrap(
    c: Seq<Seq<char>>,
    q: Seq<char>,
    r: Option<Position>,
    p0: Position,
)
    requires
        q.len() > 0,
        p0.y < c.len(),
        match_at(c[p0.y as int], q, p0.x as int),
        forall|ry: int, cx: int|
            0 <= ry < c.len() && #[trigger] match_at(c[ry], q, cx) ==> ry == p0.y && cx == p0.x,
        match r {
            Option::Some(p) => p.y < c.len() && match_at(c[p.y as int], q, p.x as int),
            Option::None => forall|ry: int, cx: int|
                0 <= ry < c.len() ==> !(#[trigger] match_at(c[ry], q, cx)),
        },
    ensures
        r == Option::Some(p0),
{
    match r {
        Option::Some(p) => {
            assert(match_at(c[p.y as int], q, p.x as int));
            assert(p.y == p0.y && p.x == p0.x);
        },
        Option::None => {
            assert(!match_at(c[p0.y as int], q, p0.x as int));
        },
    }
}

/// One buffer edit, as `insert` and `delete` describe their effect.
pub enum EditOp {
    Insert { y: int, x: int, c: char },
    Delete { y: int, x: int },
}

/// Whether the edit lands on the buffer at all: inserts reach up to the
/// phantom row just past the end, deletes only existing rows.
pub open spec fn op_touches(op: EditOp, rows: Seq<Seq<char>>) -> bool {
    match op {
        EditOp::Insert { y, .. } => 0 <= y <= rows.len(),
        EditOp::Delete { y, .. } => 0 <= y < rows.len(),
    }
}

/// The row contents after the edit, exactly as the contracts of `insert`
/// and `delete` state them.
pub open spec fn apply_op(rows: Seq<Seq<char>>, op: EditOp) -> Seq<Seq<char>> {
    match op {
        EditOp::Insert { y, x, c } => doc_rows_after_insert(rows, y, x, c),
        EditOp::Delete { y, x } => doc_rows_after_delete(rows, y, x),
    }
}

/// The dirty flag after the edit, exactly as the contracts state it.
pub open spec fn dirty_after_op(rows: Seq<Seq<char>>, dirty: bool, op: EditOp) -> bool {
    dirty || op_touches(op, rows)
}

pub open spec fn rows_after_ops(rows: Seq<Seq<char>>, ops: Seq<EditOp>) -> Seq<Seq<char>>
    decreases ops.len(),
{
    if ops.len() == 0 {
        rows
    } else {
        rows_after_ops(apply_op(rows, ops[0]), ops.drop_first())
    }
}

pub open spec fn dirty_after_ops(rows: Seq<Seq<char>>, dirty: bool, ops: Seq<EditOp>) -> bool
    decreases ops.len(),
{
    if ops.len() == 0 {
        dirty
    } else {
        dirty_after_ops(apply_op(rows, ops[0]), dirty_after_op(rows, dirty, ops[0]), ops.drop_first())
    }
}

/// No insert or delete ever clears the dirty flag.
pub proof fn lemma_dirty_monotone(rows: Seq<Seq<char>>, ops: Seq<EditOp>)
    ensures
        dirty_after_ops(rows, true, ops),
    decreases ops.len(),
{
    if ops.len() > 0 {
        lemma_dirty_monotone(apply_op(rows, ops[0]), ops.drop_first());
    }
}

/// Dirty invariant: across any sequence of inserts and deletes, the buffer
/// is dirty from the first edit that touches it onward, whatever the flag
/// was before; and by `record_save`'s contract only a successful save makes
/// it clean again.
pub proof fn lemma_dirty_after_edits(
    rows: Seq<Seq<char>>,
    dirty: bool,
    ops: Seq<EditOp>,
    k: int,
)
    requires
        0 <= k < ops.len(),
        op_touches(ops[k], rows_after_ops(rows, ops.take(k))),
    ensures
        dirty_after_ops(rows, dirty, ops),
    decreases ops.len(),
{
    if k == 0 {
        assert(ops.take(0).len() == 0);
        assert(rows_after_ops(rows, ops.take(0)) == rows);
        assert(dirty_after_op(rows, dirty, ops[0]));
        lemma_dirty_monotone(apply_op(rows, ops[0]), ops.drop_first());
    } else {
        let rows1 = apply_op(rows, ops[0]);
        let ops1 = ops.drop_first();
        assert(ops1[k - 1] == ops[k]);
        assert(ops.take(k)[0] == ops[0]);
        assert(ops.take(k).drop_first() =~= ops1.take(k - 1));
        assert(rows_after_ops(rows, ops.take(k)) == rows_after_ops(rows1, ops1.take(k - 1)));
        lemma_dirty_after_edits(rows1, dirty_after_op(rows, dirty, ops[0]), ops1, k - 1);
    }
}

/// Joining one more row appends a separating newline and the row itself
/// (the very first row comes with no separator).
proof fn lemma_join_take_step(c: Seq<Seq<char>>, i: int)
    requires
        0 <= i < c.len(),
    ensures
        join_rows(c.take(i + 1)) == if i == 0 {
            c[0]
        } else {
            join_rows(c.take(i)) + seq!['\n'] + c[i]
        },
{
    lemma_join_snoc(c.take(i), c[i]);
    assert(c.take(i).push(c[i]) =~= c.take(i + 1));
    if i == 0 {
        assert(c.take(1) =~= Seq::empty().push(c[0]));
    }
}

/// `join_rows` over a sequence extended at its back.
proof fn lemma_join_snoc(rows: Seq<Seq<char>>, row: Seq<char>)
    ensures
        join_rows(rows.push(row)) == if rows.len() == 0 {
            row
        } else {
            join_rows(rows) + seq!['\n'] + row
        },
    decreases rows.len(),
{
    let p = rows.push(row);
    if rows.len() == 0 {
        assert(p.len() == 1);
        assert(p[0] == row);
    } else {
        assert(p.drop_first() =~= rows.drop_first().push(row));
        lemma_join_snoc(rows.drop_first(), row);
        if rows.len() == 1 {
            assert(rows.drop_first().len() == 0);
            assert(join_rows(p) == p[0] + seq!['\n'] + join_rows(p.drop_first()));
            assert(p[0] == rows[0]);
            assert(join_rows(rows) == rows[0]);
        } else {
            assert(join_rows(p) == p[0] + seq!['\n'] + join_rows(p.drop_first()));
            assert(join_rows(rows) == rows[0] + seq!['\n'] + join_rows(rows.drop_first()));
            assert(p[0] == rows[0]);
            assert(join_rows(rows) + seq!['\n'] + row =~= rows[0] + seq!['\n'] + (join_rows(
                rows.drop_first(),
            ) + seq!['\n'] + row));
        }
    }
}

} // verus!
