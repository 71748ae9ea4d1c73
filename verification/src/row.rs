use vstd::prelude::*;
use crate::editor::SearchDirection;
use crate::filetype::HighlightingOptions;
use crate::highlighting::HighlightState;
use crate::highlighting::Type;
use crate::highlighting::highlight_row;
use crate::highlighting::match_at;
use crate::highlighting::row_end_state;
use crate::highlighting::row_highlight;
use crate::text::chars_from_str;
use crate::text::string_from_chars;

verus! {

broadcast use vstd::std_specs::vec::group_vec_axioms;

/// The width a character takes up in the rendered row when it starts in
/// column `col`: a tab runs to the next stop four columns apart, anything
/// else is one cell wide.
pub open spec fn char_cells(c: char, col: int) -> int {
    if c == '\t' {
        4 - (col % 4)
    } else {
        1
    }
}

/// The cells a character contributes to the window `[start, end)` of the
/// rendered row when it starts in column `col`: a tab becomes spaces, and a
/// character whose cells do not all fit inside the window is dropped whole
/// rather than rendered truncated.
pub open spec fn window_cells(c: char, col: int, start: int, end: int) -> Seq<char> {
    let w = char_cells(c, col);
    if start <= col && col + w <= end {
        if c == '\t' {
            Seq::new(w as nat, |k: int| ' ')
        } else {
            seq![c]
        }
    } else {
        Seq::empty()
    }
}

/// The visible part of the rendered (tab-expanded) row from character `i`
/// on, with the rendering cursor in column `col`.
pub open spec fn render_window(s: Seq<char>, i: int, col: int, start: int, end: int) -> Seq<char>
    decreases s.len() - i,
{
    if i < 0 || i >= s.len() {
        Seq::empty()
    } else {
        window_cells(s[i], col, start, end) + render_window(
            s,
            i + 1,
            col + char_cells(s[i], col),
            start,
            end,
        )
    }
}

/// The classifications of the visible cells, aligned with `render_window`:
/// each rendered cell carries the classification of the character it came
/// from.
pub open spec fn render_window_hl(
    s: Seq<char>,
    hl: Seq<Type>,
    i: int,
    col: int,
    start: int,
    end: int,
) -> Seq<Type>
    decreases s.len() - i,
{
    if i < 0 || i >= s.len() {
        Seq::empty()
    } else {
        Seq::new(window_cells(s[i], col, start, end).len(), |k: int| hl[i]) + render_window_hl(
            s,
            hl,
            i + 1,
            col + char_cells(s[i], col),
            start,
            end,
        )
    }
}

/// Once the rendering cursor has reached the window's right edge nothing
/// more is visible.
proof fn lemma_render_window_past_end(s: Seq<char>, hl: Seq<Type>, i: int, col: int, start: int, end: int)
    requires
        col >= end,
    ensures
        render_window(s, i, col, start, end) == Seq::<char>::empty(),
        render_window_hl(s, hl, i, col, start, end) == Seq::<Type>::empty(),
    decreases s.len() - i,
{
    if 0 <= i < s.len() {
        assert(char_cells(s[i], col) >= 1);
        lemma_render_window_past_end(s, hl, i + 1, col + char_cells(s[i], col), start, end);
        assert(window_cells(s[i], col, start, end) =~= Seq::<char>::empty());
        assert(render_window(s, i, col, start, end) =~= Seq::<char>::empty());
        assert(render_window_hl(s, hl, i, col, start, end) =~= Seq::<Type>::empty());
    }
}

/// One row of the document: its characters, and aligned with them one to
/// one their highlight classification.  The two are rebuilt together and
/// never drift apart.
pub struct Row {
    content: Vec<char>,
    highlighting: Vec<Type>,
}

impl Row {
    /// The characters of the row.
    pub closed spec fn chars(&self) -> Seq<char> {
        self.content@
    }

    /// The classification array of the row.
    pub closed spec fn hl(&self) -> Seq<Type> {
        self.highlighting@
    }

    /// The classification array always has exactly one entry per character.
    pub open spec fn wf(&self) -> bool {
        self.hl().len() == self.chars().len()
    }

    /// An empty row, as created by pressing Enter at the end of a line.
    pub fn new() -> (r: Row)
        ensures
            r.chars() == Seq::<char>::empty(),
            r.hl() == Seq::<Type>::empty(),
    {
        Row { content: Vec::new(), highlighting: Vec::new() }
    }

    /// A row holding the given text, not yet highlighted.
    pub fn from_str(s: &str) -> (r: Row)
        ensures
            r.chars() == s@,
            r.hl() == Seq::new(s@.len(), |i: int| Type::Plain),
    {
        let content = chars_from_str(s);
        Self::from_chars(content)
    }

    /// A row holding the given characters, not yet highlighted.
    pub fn from_chars(content: Vec<char>) -> (r: Row)
        ensures
            r.chars() == content@,
            r.hl() == Seq::new(content@.len(), |i: int| Type::Plain),
    {
        let mut highlighting: Vec<Type> = Vec::new();
        let mut i: usize = 0;
        while i < content.len()
            invariant
                i <= content@.len(),
                highlighting@ =~= Seq::new(i as nat, |k: int| Type::Plain),
            decreases content@.len() - i,
        {
            highlighting.push(Type::Plain);
            i = i + 1;
        }
        proof {
            assert(highlighting@ =~= Seq::new(content@.len(), |k: int| Type::Plain));
        }
        Row { content, highlighting }
    }

    /// The length of the row, counted in characters, not bytes.
    pub fn len(&self) -> (n: usize)
        ensures
            n == self.chars().len(),
    {
        self.content.len()
    }

    /// The character at offset `i`.
    pub fn char_at(&self, i: usize) -> (c: char)
        requires
            i < self.chars().len(),
        ensures
            c == self.chars()[i as int],
    {
        self.content[i]
    }

    pub fn is_empty(&self) -> (b: bool)
        ensures
            b == (self.chars().len() == 0),
    {
        self.content.len() == 0
    }

    /// The row's text, as a string.
    pub fn contents(&self) -> (s: String)
        ensures
            s@ == self.chars(),
    {
        string_from_chars(&self.content)
    }

    /// The row's classification array, for painting.
    pub fn highlighting(&self) -> (h: &Vec<Type>)
        ensures
            h@ == self.hl(),
    {
        &self.highlighting
    }

    /// Inserts `c` at character offset `at`; an offset past the end is
    /// clamped to an append rather than failing.  The new character starts
    /// unclassified until the next highlight pass.
    pub fn insert(&mut self, at: usize, c: char)
        requires
            old(self).wf(),
        ensures
            final(self).wf(),
            final(self).chars() == (if at <= old(self).chars().len() {
                old(self).chars().insert(at as int, c)
            } else {
                old(self).chars().push(c)
            }),
            final(self).chars().len() == old(self).chars().len() + 1,
    {
        let pos = if at <= self.content.len() {
            at
        } else {
            self.content.len()
        };
        self.content.insert(pos, c);
        self.highlighting.insert(pos, Type::Plain);
        proof {
            if at > old(self).chars().len() {
                assert(final(self).chars() =~= old(self).chars().push(c));
            }
        }
    }

    /// Removes the character at `at`; deleting at or past the end of the
    /// row is a no-op at this layer (merging rows is the document's task).
    pub fn delete(&mut self, at: usize)
        requires
            old(self).wf(),
        ensures
            final(self).wf(),
            final(self).chars() == (if at < old(self).chars().len() {
                old(self).chars().remove(at as int)
            } else {
                old(self).chars()
            }),
    {
        if at < self.content.len() {
            self.content.remove(at);
            self.highlighting.remove(at);
        }
    }

    /// Appends another row's text, as when a backspace joins two lines.
    pub fn append(&mut self, other: &Row)
        requires
            old(self).wf(),
            other.wf(),
        ensures
            final(self).wf(),
            final(self).chars() == old(self).chars() + other.chars(),
    {
        let mut i: usize = 0;
        let n = other.content.len();
        while i < n
            invariant
                i <= n,
                n == other.chars().len(),
                other.wf(),
                self.wf(),
                self.chars() =~= old(self).chars() + other.chars().take(i as int),
                self.hl().len() == self.chars().len(),
            decreases n - i,
        {
            self.content.push(other.content[i]);
            self.highlighting.push(other.highlighting[i]);
            i = i + 1;
        }
        proof {
            assert(self.chars() =~= old(self).chars() + other.chars());
        }
    }

    /// Splits the row at `at` (clamped to the row's end): the row keeps the
    /// text before the split point and the returned row carries the rest,
    /// as when Enter is pressed in the middle of a line.
    pub fn split(&mut self, at: usize) -> (rest: Row)
        requires
            old(self).wf(),
        ensures
            final(self).wf(),
            rest.wf(),
            final(self).chars() == old(self).chars().take(
                if at <= old(self).chars().len() {
                    at as int
                } else {
                    old(self).chars().len() as int
                },
            ),
            rest.chars() == old(self).chars().skip(
                if at <= old(self).chars().len() {
                    at as int
                } else {
                    old(self).chars().len() as int
                },
            ),
    {
        let pos = if at <= self.content.len() {
            at
        } else {
            self.content.len()
        };
        let mut left: Vec<char> = Vec::new();
        let mut left_hl: Vec<Type> = Vec::new();
        let mut i: usize = 0;
        while i < pos
            invariant
                i <= pos,
                pos <= self.chars().len(),
                self.wf(),
                self == old(self),
                left@ =~= self.chars().take(i as int),
                left_hl@.len() == i,
            decreases pos - i,
        {
            left.push(self.content[i]);
            left_hl.push(self.highlighting[i]);
            i = i + 1;
        }
        let mut right: Vec<char> = Vec::new();
        let mut right_hl: Vec<Type> = Vec::new();
        let mut j: usize = pos;
        let n = self.content.len();
        while j < n
            invariant
                pos <= j <= n,
                n == self.chars().len(),
                self.wf(),
                self == old(self),
                right@ =~= self.chars().subrange(pos as int, j as int),
                right_hl@.len() == j - pos,
            decreases n - j,
        {
            right.push(self.content[j]);
            right_hl.push(self.highlighting[j]);
            j = j + 1;
        }
        proof {
            assert(left@ =~= old(self).chars().take(pos as int));
            assert(right@ =~= old(self).chars().skip(pos as int));
        }
        self.content = left;
        self.highlighting = left_hl;
        Row { content: right, highlighting: right_hl }
    }

    /// Recomputes the row's classification: it enters in lexical state `st`,
    /// overlays the query, and hands back the state carried into the next
    /// row.
    pub fn highlight(
        &mut self,
        opts: &HighlightingOptions,
        query: &Option<Vec<char>>,
        st: HighlightState,
    ) -> (out: HighlightState)
        ensures
            final(self).chars() == old(self).chars(),
            final(self).wf(),
            final(self).hl() == row_highlight(old(self).chars(), query.deep_view(), st, opts@),
            out == row_end_state(old(self).chars(), st, opts@),
    {
        let (hl, out) = highlight_row(&self.content, opts, query, st);
        self.highlighting = hl;
        out
    }

    /// The characters of the rendered (tab-expanded) row that are visible in
    /// the window `[start, end)`, and the classification of each visible
    /// cell.  A character that only partially fits at the window's edge is
    /// dropped rather than rendered truncated.
    fn render_cells(&self, start: usize, end: usize) -> (r: (Vec<char>, Vec<Type>))
        requires
            self.wf(),
            end <= usize::MAX - 4,
        ensures
            r.0@ == render_window(self.chars(), 0, 0, start as int, end as int),
            r.1@ == render_window_hl(self.chars(), self.hl(), 0, 0, start as int, end as int),
            r.0@.len() == r.1@.len(),
    {
        let ghost s = self.chars();
        let mut out: Vec<char> = Vec::new();
        let mut out_hl: Vec<Type> = Vec::new();
        let mut i: usize = 0;
        let mut col: usize = 0;
        let n = self.content.len();
        while i < n && col < end
            invariant
                i <= n,
                n == s.len(),
                s == self.chars(),
                self.wf(),
                end <= usize::MAX - 4,
                col <= end + 3,
                render_window(s, 0, 0, start as int, end as int) =~= out@ + render_window(
                    s,
                    i as int,
                    col as int,
                    start as int,
                    end as int,
                ),
                render_window_hl(s, self.hl(), 0, 0, start as int, end as int) =~= out_hl@
                    + render_window_hl(
                    s,
                    self.hl(),
                    i as int,
                    col as int,
                    start as int,
                    end as int,
                ),
                out@.len() == out_hl@.len(),
            decreases n - i,
        {
            let c = self.content[i];
            let w: usize = if c == '\t' {
                4 - (col % 4)
            } else {
                1
            };
            proof {
                assert(w as int == char_cells(c, col as int));
            }
            if start <= col && col + w <= end {
                let ghost prev = out@;
                let ghost prev_hl = out_hl@;
                if c == '\t' {
                    let mut k: usize = 0;
                    while k < w
                        invariant
                            k <= w,
                            out@ =~= prev + Seq::new(k as nat, |x: int| ' '),
                            out_hl@ =~= prev_hl + Seq::new(k as nat, |x: int| self.hl()[i as int]),
                            self.wf(),
                            i < self.chars().len(),
                        decreases w - k,
                    {
                        out.push(' ');
                        out_hl.push(self.highlighting[i]);
                        k = k + 1;
                    }
                    proof {
                        assert(window_cells(c, col as int, start as int, end as int) =~= Seq::new(
                            w as nat,
                            |x: int| ' ',
                        ));
                    }
                } else {
                    out.push(c);
                    out_hl.push(self.highlighting[i]);
                    proof {
                        assert(window_cells(c, col as int, start as int, end as int) =~= seq![c]);
                        assert(out@ =~= prev + window_cells(
                            c,
                            col as int,
                            start as int,
                            end as int,
                        ));
                    }
                }
                proof {
                    assert(out@ =~= prev + window_cells(c, col as int, start as int, end as int));
                    assert(Seq::new(
                        window_cells(c, col as int, start as int, end as int).len(),
                        |x: int| self.hl()[i as int],
                    ) =~= out_hl@.subrange(prev_hl.len() as int, out_hl@.len() as int));
                    assert(out_hl@ =~= prev_hl + Seq::new(
                        window_cells(c, col as int, start as int, end as int).len(),
                        |x: int| self.hl()[i as int],
                    ));
                }
            } else {
                proof {
                    assert(window_cells(c, col as int, start as int, end as int) =~= Seq::<
                        char,
                    >::empty());
                }
            }
            proof {
                assert(render_window(s, i as int, col as int, start as int, end as int)
                    == window_cells(c, col as int, start as int, end as int) + render_window(
                    s,
                    i + 1,
                    col + w,
                    start as int,
                    end as int,
                ));
            }
            i = i + 1;
            col = col + w;
        }
        proof {
            if i < n {
                lemma_render_window_past_end(
                    s,
                    self.hl(),
                    i as int,
                    col as int,
                    start as int,
                    end as int,
                );
            }
            assert(render_window(s, i as int, col as int, start as int, end as int) =~= Seq::<
                char,
            >::empty());
            assert(render_window_hl(
                s,
                self.hl(),
                i as int,
                col as int,
                start as int,
                end as int,
            ) =~= Seq::<Type>::empty());
        }
        (out, out_hl)
    }

    /// The display string for the visible window `[start, end)` of the
    /// rendered row.
    pub fn render(&self, start: usize, end: usize) -> (r: String)
        requires
            self.wf(),
            end <= usize::MAX - 4,
        ensures
            r@ == render_window(self.chars(), 0, 0, start as int, end as int),
    {
        let (cells, _hl) = self.render_cells(start, end);
        string_from_chars(&cells)
    }

    /// The classification of each cell of the same window, in step with
    /// `render`; the view layer changes color exactly where two neighbouring
    /// entries differ.
    pub fn render_highlighting(&self, start: usize, end: usize) -> (r: Vec<Type>)
        requires
            self.wf(),
            end <= usize::MAX - 4,
        ensures
            r@ == render_window_hl(self.chars(), self.hl(), 0, 0, start as int, end as int),
    {
        let (_cells, hl) = self.render_cells(start, end);
        hl
    }

    /// Searches this row for the query.  Forward, the leftmost match at or
    /// after `at` is found; backward, the rightmost match lying entirely
    /// before `at`.
    pub fn find(&self, query: &str, at: usize, direction: SearchDirection) -> (r: Option<usize>)
        ensures
            match r {
                Some(k) => match_at(self.chars(), query@, k as int) && (match direction {
                    SearchDirection::Forward => at <= k && forall|j: int|
                        at <= j < k ==> !match_at(self.chars(), query@, j),
                    SearchDirection::Backward => k + query@.len() <= at && forall|j: int|
                        k < j && j + query@.len() <= at ==> !match_at(self.chars(), query@, j),
                }),
                None => match direction {
                    SearchDirection::Forward => forall|j: int|
                        at <= j ==> !match_at(self.chars(), query@, j),
                    SearchDirection::Backward => forall|j: int|
                        j + query@.len() <= at ==> !match_at(self.chars(), query@, j),
                },
            },
    {
        let q = chars_from_str(query);
        let s = &self.content;
        if q.len() > s.len() {
            proof {
                assert(forall|j: int| !match_at(self.chars(), query@, j));
            }
            return None;
        }
        if q.len() == 0 {
            match direction {
                SearchDirection::Forward => {
                    if at <= s.len() {
                        proof {
                            assert(self.chars().subrange(at as int, at as int) =~= query@);
                        }
                        return Some(at);
                    } else {
                        proof {
                            assert forall|j: int| at <= j implies !match_at(
                                self.chars(),
                                query@,
                                j,
                            ) by {
                                if match_at(self.chars(), query@, j) {
                                    assert(j + query@.len() <= self.chars().len());
                                }
                            }
                        }
                        return None;
                    }
                },
                SearchDirection::Backward => {
                    let k = if at <= s.len() {
                        at
                    } else {
                        s.len()
                    };
                    proof {
                        assert(self.chars().subrange(k as int, k as int) =~= query@);
                        assert forall|j: int| k < j && j + query@.len() <= at implies !match_at(
                            self.chars(),
                            query@,
                            j,
                        ) by {
                            if match_at(self.chars(), query@, j) {
                                assert(j + query@.len() <= self.chars().len());
                            }
                        }
                    }
                    return Some(k);
                },
            }
        }
        let last = s.len() - q.len();
        match direction {
            SearchDirection::Forward => {
                let mut k: usize = at;
                while k <= last
                    invariant
                        s.len() == self.chars().len(),
                        s@ == self.chars(),
                        q@ == query@,
                        q@.len() >= 1,
                        last + q@.len() == s@.len(),
                        at <= k,
                        direction is Forward,
                        forall|j: int| at <= j < k ==> !match_at(self.chars(), query@, j),
                    decreases last + 1 - k,
                {
                    if crate::highlighting::match_here(s, &q, k) {
                        return Some(k);
                    }
                    k = k + 1;
                }
                proof {
                    assert forall|j: int| at <= j implies !match_at(self.chars(), query@, j) by {
                        if match_at(self.chars(), query@, j) {
                            assert(j + query@.len() <= self.chars().len());
                            assert(j < k);
                        }
                    }
                }
                None
            },
            SearchDirection::Backward => {
                let upto = if at > s.len() {
                    s.len()
                } else {
                    at
                };
                if upto < q.len() {
                    proof {
                        assert forall|j: int|
                            j + query@.len() <= at implies !match_at(
                            self.chars(),
                            query@,
                            j,
                        ) by {
                            if match_at(self.chars(), query@, j) {
                                assert(j >= 0);
                                assert(j + query@.len() <= self.chars().len());
                            }
                        }
                    }
                    return None;
                }
                let m = upto - q.len();
                let mut k: usize = m + 1;
                while k > 0
                    invariant
                        s.len() == self.chars().len(),
                        s@ == self.chars(),
                        q@ == query@,
                        q@.len() >= 1,
                        q@.len() <= upto,
                        upto <= s@.len(),
                        upto <= at,
                        at <= s@.len() ==> upto == at,
                        at > s@.len() ==> upto == s@.len(),
                        m + q@.len() == upto,
                        k <= m + 1,
                        direction is Backward,
                        forall|j: int| k <= j <= m ==> !match_at(self.chars(), query@, j),
                    decreases k,
                {
                    let idx = k - 1;
                    if crate::highlighting::match_here(s, &q, idx) {
                        proof {
                            assert forall|j: int|
                                idx < j && j + query@.len() <= at implies !match_at(
                                self.chars(),
                                query@,
                                j,
                            ) by {
                                if match_at(self.chars(), query@, j) {
                                    assert(j + query@.len() <= self.chars().len());
                                    assert(j <= m);
                                }
                            }
                        }
                        return Some(idx);
                    }
                    k = idx;
                }
                proof {
                    assert forall|j: int|
                        j + query@.len() <= at implies !match_at(self.chars(), query@, j) by {
                        if match_at(self.chars(), query@, j) {
                            assert(j >= 0);
                            assert(j + query@.len() <= self.chars().len());
                            assert(j <= m);
                        }
                    }
                }
                None
            },
        }
    }
}

} // verus!
