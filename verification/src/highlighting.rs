use vstd::prelude::*;
use crate::filetype::HighlightingOptions;
use crate::filetype::OptionsView;

verus! {

broadcast use vstd::std_specs::vec::group_vec_axioms;

/// Semantic classification of a single character of a row; it drives the
/// display color only.
#[derive(PartialEq, Eq, Structural, Clone, Copy, Debug)]
pub enum Type {
    Plain,
    Number,
    Match,
    String,
    Character,
    Comment,
    MiltilineComment,
    PrimaryKeywords,
    SecondaryKeywords,
}

/// A display color, as plain values: either one of the few named colors the
/// editor uses or an RGB triple.  The terminal layer translates it into
/// whatever escape codes the device wants.
#[derive(PartialEq, Eq, Structural, Clone, Copy, Debug)]
pub enum Color {
    Red,
    Rgb { r: u8, g: u8, b: u8 },
}

/// The color table of the editor: which color each classification is drawn in.
pub open spec fn color_of(t: Type) -> Color {
    match t {
        Type::Number => Color::Rgb { r: 180, g: 126, b: 141 },
        Type::Match => Color::Rgb { r: 38, g: 139, b: 210 },
        Type::String => Color::Rgb { r: 205, g: 92, b: 8 },
        Type::Character => Color::Rgb { r: 108, g: 113, b: 196 },
        Type::Comment => Color::Rgb { r: 245, g: 232, b: 183 },
        Type::MiltilineComment => Color::Rgb { r: 245, g: 232, b: 183 },
        Type::PrimaryKeywords => Color::Red,
        Type::SecondaryKeywords => Color::Rgb { r: 255, g: 161, b: 152 },
        _ => Color::Rgb { r: 255, g: 255, b: 255 },
    }
}

impl Type {
    pub fn to_color(self) -> (c: Color)
        ensures
            c == color_of(self),
    {
        match self {
            Type::Number => Color::Rgb { r: 180, g: 126, b: 141 },
            Type::Match => Color::Rgb { r: 38, g: 139, b: 210 },
            Type::String => Color::Rgb { r: 205, g: 92, b: 8 },
            Type::Character => Color::Rgb { r: 108, g: 113, b: 196 },
            Type::Comment | Type::MiltilineComment => Color::Rgb { r: 245, g: 232, b: 183 },
            Type::PrimaryKeywords => Color::Red,
            Type::SecondaryKeywords => Color::Rgb { r: 255, g: 161, b: 152 },
            _ => Color::Rgb { r: 255, g: 255, b: 255 },
        }
    }
}

/// Lexical state carried from the end of one row into the start of the next:
/// either ordinary scanning, inside a string opened by the given quote
/// character, or inside a block comment.
#[derive(PartialEq, Eq, Structural, Clone, Copy, Debug)]
pub enum HighlightState {
    Normal,
    InString(char),
    InBlockComment,
}

/// A character that may stand inside an identifier: an ASCII letter, an
/// ASCII digit or an underscore.
pub open spec fn is_ident_char(c: char) -> bool {
    (97 <= c as u32 <= 122) || (65 <= c as u32 <= 90) || is_digit(c) || c == '_'
}

/// An ASCII decimal digit.
pub open spec fn is_digit(c: char) -> bool {
    48 <= c as u32 <= 57
}

fn is_digit_exec(c: char) -> (b: bool)
    ensures
        b == is_digit(c),
{
    let u = c as u32;
    48 <= u && u <= 57
}

fn is_ident_char_exec(c: char) -> (b: bool)
    ensures
        b == is_ident_char(c),
{
    let u = c as u32;
    (97 <= u && u <= 122) || (65 <= u && u <= 90) || (48 <= u && u <= 57) || c == '_'
}

/// The end of the identifier run that starts at `i`: the first position at
/// or after `i` that is past the text or holds no identifier character.
pub open spec fn ident_end(s: Seq<char>, i: int) -> int
    decreases s.len() - i,
{
    if i < 0 {
        0
    } else if i >= s.len() {
        i
    } else if is_ident_char(s[i]) {
        ident_end(s, i + 1)
    } else {
        i
    }
}

pub proof fn lemma_ident_end(s: Seq<char>, i: int)
    requires
        0 <= i <= s.len(),
    ensures
        i <= ident_end(s, i) <= s.len(),
        forall|j: int| i <= j < ident_end(s, i) ==> is_ident_char(s[j]),
        ident_end(s, i) < s.len() ==> !is_ident_char(s[ident_end(s, i)]),
    decreases s.len() - i,
{
    if i < s.len() && is_ident_char(s[i]) {
        lemma_ident_end(s, i + 1);
    }
}

/// The end of the digit run that starts at `i`.
pub open spec fn digits_end(s: Seq<char>, i: int) -> int
    decreases s.len() - i,
{
    if i < 0 {
        0
    } else if i >= s.len() {
        i
    } else if is_digit(s[i]) {
        digits_end(s, i + 1)
    } else {
        i
    }
}

pub proof fn lemma_digits_end(s: Seq<char>, i: int)
    requires
        0 <= i <= s.len(),
    ensures
        i <= digits_end(s, i) <= s.len(),
    decreases s.len() - i,
{
    if i < s.len() && is_digit(s[i]) {
        lemma_digits_end(s, i + 1);
    }
}

/// The end of the number token that starts at `i`: a run of digits, then at
/// most one decimal point followed by at least one digit, then more digits.
pub open spec fn number_end(s: Seq<char>, i: int) -> int {
    let d = digits_end(s, i);
    if d < s.len() && s[d] == '.' && d + 1 < s.len() && is_digit(s[d + 1]) {
        digits_end(s, d + 1)
    } else {
        d
    }
}

/// Whether the character just before position `i` belongs to an identifier;
/// tokens only start where this is false.
pub open spec fn prev_is_ident(s: Seq<char>, i: int) -> bool {
    i > 0 && i <= s.len() && is_ident_char(s[i - 1])
}

/// One step of the lexer: how many characters it consumes from position `i`,
/// the classification it gives all of them, and the state it continues in.
pub struct LexStep {
    pub n: int,
    pub t: Type,
    pub st: HighlightState,
}

/// The step taken inside a character literal: quote, optionally escaped
/// character, closing quote.  An unclosed literal leaves the quote plain.
pub open spec fn char_literal_step(s: Seq<char>, i: int) -> LexStep {
    let close = if i + 1 < s.len() && s[i + 1] == '\\' {
        i + 3
    } else {
        i + 2
    };
    if close < s.len() && s[close] == '\'' {
        LexStep { n: close - i + 1, t: Type::Character, st: HighlightState::Normal }
    } else {
        LexStep { n: 1, t: Type::Plain, st: HighlightState::Normal }
    }
}

/// The step taken at an identifier run: the whole run is consumed, and it is
/// a keyword only when it starts at a token boundary and the run equals one
/// of the language's keywords (whole-token, longest-match by maximality).
pub open spec fn ident_step(s: Seq<char>, i: int, o: OptionsView) -> LexStep {
    let j = ident_end(s, i);
    let word = s.subrange(i, j);
    if !prev_is_ident(s, i) && o.primary_keywords.contains(word) {
        LexStep { n: j - i, t: Type::PrimaryKeywords, st: HighlightState::Normal }
    } else if !prev_is_ident(s, i) && o.secondary_keywords.contains(word) {
        LexStep { n: j - i, t: Type::SecondaryKeywords, st: HighlightState::Normal }
    } else {
        LexStep { n: j - i, t: Type::Plain, st: HighlightState::Normal }
    }
}

/// The step taken in the `Normal` state.
pub open spec fn lex_step_normal(s: Seq<char>, i: int, o: OptionsView) -> LexStep {
    if o.comments && s[i] == '/' && i + 1 < s.len() && s[i + 1] == '/' {
        LexStep { n: s.len() - i, t: Type::Comment, st: HighlightState::Normal }
    } else if o.multiline_comments && s[i] == '/' && i + 1 < s.len() && s[i + 1] == '*' {
        LexStep { n: 2, t: Type::MiltilineComment, st: HighlightState::InBlockComment }
    } else if o.strings && s[i] == '"' {
        LexStep { n: 1, t: Type::String, st: HighlightState::InString('"') }
    } else if o.characters && s[i] == '\'' {
        char_literal_step(s, i)
    } else if o.numbers && is_digit(s[i]) && !prev_is_ident(s, i) {
        LexStep { n: number_end(s, i) - i, t: Type::Number, st: HighlightState::Normal }
    } else if is_ident_char(s[i]) {
        ident_step(s, i, o)
    } else {
        LexStep { n: 1, t: Type::Plain, st: HighlightState::Normal }
    }
}

/// One step of the lexer at position `i` of row `s` in state `st`.  Inside a
/// string, an unescaped occurrence of the opening quote closes it and a
/// backslash shields the character after it; inside a block comment only the
/// closing token ends it; otherwise `lex_step_normal` decides.
pub open spec fn lex_step(s: Seq<char>, i: int, st: HighlightState, o: OptionsView) -> LexStep {
    match st {
        HighlightState::InString(q) => if s[i] == '\\' && i + 1 < s.len() {
            LexStep { n: 2, t: Type::String, st }
        } else if s[i] == q {
            LexStep { n: 1, t: Type::String, st: HighlightState::Normal }
        } else {
            LexStep { n: 1, t: Type::String, st }
        },
        HighlightState::InBlockComment => if s[i] == '*' && i + 1 < s.len() && s[i + 1] == '/' {
            LexStep { n: 2, t: Type::MiltilineComment, st: HighlightState::Normal }
        } else {
            LexStep { n: 1, t: Type::MiltilineComment, st: HighlightState::InBlockComment }
        },
        HighlightState::Normal => lex_step_normal(s, i, o),
    }
}

pub proof fn lemma_lex_step_bounds(s: Seq<char>, i: int, st: HighlightState, o: OptionsView)
    requires
        0 <= i < s.len(),
    ensures
        1 <= lex_step(s, i, st, o).n <= s.len() - i,
{
    match st {
        HighlightState::InString(_) => {
        },
        HighlightState::InBlockComment => {
        },
        HighlightState::Normal => {
            lemma_ident_end(s, i);
            if is_ident_char(s[i]) {
                lemma_ident_end(s, i + 1);
            }
            lemma_digits_end(s, i);
            if is_digit(s[i]) {
                lemma_digits_end(s, i + 1);
            }
            let d = digits_end(s, i);
            if d < s.len() && s[d] == '.' && d + 1 < s.len() && is_digit(s[d + 1]) {
                lemma_digits_end(s, d + 1);
                lemma_digits_end(s, d + 2);
            }
        },
    }
}

/// The lexical classification of `s` from position `i` in state `st`,
/// together with the state the lexer is in when the row ends.
pub open spec fn lex(s: Seq<char>, i: int, st: HighlightState, o: OptionsView) -> (Seq<
    Type,
>, HighlightState)
    decreases s.len() - i when 0 <= i <= s.len() via lex_decreases
{
    if i >= s.len() {
        (Seq::empty(), st)
    } else {
        let step = lex_step(s, i, st, o);
        let rest = lex(s, i + step.n, step.st, o);
        (Seq::new(step.n as nat, |k: int| step.t) + rest.0, rest.1)
    }
}

#[via_fn]
proof fn lex_decreases(s: Seq<char>, i: int, st: HighlightState, o: OptionsView) {
    if 0 <= i < s.len() {
        lemma_lex_step_bounds(s, i, st, o);
    }
}

/// The classification of a whole row entered in state `st`.
pub open spec fn lex_types(s: Seq<char>, st: HighlightState, o: OptionsView) -> Seq<Type> {
    lex(s, 0, st, o).0
}

/// The state the lexer reaches at the end of a row entered in state `st`,
/// before the end-of-row adjustment.
pub open spec fn lex_out_state(s: Seq<char>, st: HighlightState, o: OptionsView) -> HighlightState {
    lex(s, 0, st, o).1
}

/// The state carried into the next row: a string still open when the row
/// ends is force-closed, since the languages of the registry have no
/// multi-line strings; an open block comment carries over.
pub open spec fn row_end_state(s: Seq<char>, st: HighlightState, o: OptionsView) -> HighlightState {
    match lex_out_state(s, st, o) {
        HighlightState::InString(_) => HighlightState::Normal,
        other => other,
    }
}

pub proof fn lemma_lex_len(s: Seq<char>, i: int, st: HighlightState, o: OptionsView)
    requires
        0 <= i <= s.len(),
    ensures
        lex(s, i, st, o).0.len() == s.len() - i,
    decreases s.len() - i,
{
    if i < s.len() {
        lemma_lex_step_bounds(s, i, st, o);
        let step = lex_step(s, i, st, o);
        lemma_lex_len(s, i + step.n, step.st, o);
    }
}

/// The query matches row `s` at position `k`.
pub open spec fn match_at(s: Seq<char>, q: Seq<char>, k: int) -> bool {
    0 <= k && k + q.len() <= s.len() && s.subrange(k, k + q.len() as int) == q
}

/// Position `p` lies inside some occurrence of the query in the row.
pub open spec fn match_covers(s: Seq<char>, q: Seq<char>, p: int) -> bool {
    exists|k: int| match_at(s, q, k) && k <= p < k + q.len()
}

/// The full classification of a row: the lexical classification, with every
/// position inside an occurrence of a non-empty query overridden to `Match`.
pub open spec fn row_highlight(
    s: Seq<char>,
    q: Option<Seq<char>>,
    st: HighlightState,
    o: OptionsView,
) -> Seq<Type> {
    let base = lex_types(s, st, o);
    match q {
        Option::None => base,
        Option::Some(qs) => if qs.len() == 0 {
            base
        } else {
            Seq::new(
                base.len(),
                |p: int|
                    if match_covers(s, qs, p) {
                        Type::Match
                    } else {
                        base[p]
                    },
            )
        },
    }
}

fn eq_at(s: &Vec<char>, i: usize, w: &Vec<char>) -> (b: bool)
    requires
        i + w@.len() <= s@.len(),
    ensures
        b == (s@.subrange(i as int, i + w@.len()) == w@),
{
    let mut k: usize = 0;
    while k < w.len()
        invariant
            s.len() == s@.len(),
            k <= w@.len(),
            i + w@.len() <= s@.len(),
            forall|j: int| 0 <= j < k ==> s@[i + j] == w@[j],
        decreases w@.len() - k,
    {
        if s[i + k] != w[k] {
            proof {
                assert(s@.subrange(i as int, i + w@.len())[k as int] == s@[i + k]);
            }
            return false;
        }
        k = k + 1;
    }
    proof {
        assert(s@.subrange(i as int, i + w@.len()) =~= w@);
    }
    true
}

/// Whether the query `q` occurs in `s` starting at position `k`.
pub(crate) fn match_here(s: &Vec<char>, q: &Vec<char>, k: usize) -> (b: bool)
    requires
        k + q@.len() <= s@.len(),
    ensures
        b == match_at(s@, q@, k as int),
{
    eq_at(s, k, q)
}

fn contains_word(list: &Vec<Vec<char>>, s: &Vec<char>, i: usize, j: usize) -> (b: bool)
    requires
        i <= j <= s@.len(),
    ensures
        b == list.deep_view().contains(s@.subrange(i as int, j as int)),
{
    let ghost word = s@.subrange(i as int, j as int);
    let mut idx: usize = 0;
    while idx < list.len()
        invariant
            idx <= list@.len(),
            i <= j <= s@.len(),
            word == s@.subrange(i as int, j as int),
            forall|x: int| 0 <= x < idx ==> list.deep_view()[x] != word,
        decreases list@.len() - idx,
    {
        let w = &list[idx];
        if w.len() == j - i && eq_at(s, i, w) {
            proof {
                assert(list.deep_view()[idx as int] == w@);
                assert(s@.subrange(i as int, i + w@.len()) == word);
            }
            return true;
        }
        proof {
            assert(list.deep_view()[idx as int] == list@[idx as int]@);
            if w@.len() == j - i {
                assert(s@.subrange(i as int, i + w@.len()) == word);
            }
        }
        idx = idx + 1;
    }
    proof {
        assert(!list.deep_view().contains(word)) by {
            if list.deep_view().contains(word) {
                let x = choose|x: int|
                    0 <= x < list.deep_view().len() && list.deep_view()[x] == word;
                assert(list.deep_view()[x] != word);
            }
        }
    }
    false
}

fn ident_end_exec(s: &Vec<char>, i: usize) -> (j: usize)
    requires
        i <= s@.len(),
    ensures
        j as int == ident_end(s@, i as int),
        i <= j <= s@.len(),
{
    let mut j = i;
    while j < s.len() && is_ident_char_exec(s[j])
        invariant
            i <= j <= s@.len(),
            ident_end(s@, i as int) == ident_end(s@, j as int),
        decreases s@.len() - j,
    {
        j = j + 1;
    }
    proof {
        lemma_ident_end(s@, j as int);
    }
    j
}

fn digits_end_exec(s: &Vec<char>, i: usize) -> (j: usize)
    requires
        i <= s@.len(),
    ensures
        j as int == digits_end(s@, i as int),
        i <= j <= s@.len(),
{
    let mut j = i;
    while j < s.len() && is_digit_exec(s[j])
        invariant
            i <= j <= s@.len(),
            digits_end(s@, i as int) == digits_end(s@, j as int),
        decreases s@.len() - j,
    {
        j = j + 1;
    }
    j
}

fn number_end_exec(s: &Vec<char>, i: usize) -> (j: usize)
    requires
        i <= s@.len(),
    ensures
        j as int == number_end(s@, i as int),
        i <= j <= s@.len(),
{
    let d = digits_end_exec(s, i);
    if d < s.len() && s[d] == '.' && d + 1 < s.len() && is_digit_exec(s[d + 1]) {
        digits_end_exec(s, d + 1)
    } else {
        d
    }
}

fn lex_step_exec(s: &Vec<char>, i: usize, st: HighlightState, o: &HighlightingOptions) -> (r: (
    usize,
    Type,
    HighlightState,
))
    requires
        i < s@.len(),
    ensures
        ({
            let step = lex_step(s@, i as int, st, o@);
            r.0 as int == step.n && r.1 == step.t && r.2 == step.st
        }),
        1 <= r.0,
        i + r.0 <= s@.len(),
{
    proof {
        assert(s.len() == s@.len());
        lemma_lex_step_bounds(s@, i as int, st, o@);
    }
    match st {
        HighlightState::InString(q) => {
            if s[i] == '\\' && i + 1 < s.len() {
                (2, Type::String, st)
            } else if s[i] == q {
                (1, Type::String, HighlightState::Normal)
            } else {
                (1, Type::String, st)
            }
        },
        HighlightState::InBlockComment => {
            if s[i] == '*' && i + 1 < s.len() && s[i + 1] == '/' {
                (2, Type::MiltilineComment, HighlightState::Normal)
            } else {
                (1, Type::MiltilineComment, HighlightState::InBlockComment)
            }
        },
        HighlightState::Normal => {
            if o.comments && s[i] == '/' && i + 1 < s.len() && s[i + 1] == '/' {
                (s.len() - i, Type::Comment, HighlightState::Normal)
            } else if o.multiline_comments && s[i] == '/' && i + 1 < s.len() && s[i + 1] == '*' {
                (2, Type::MiltilineComment, HighlightState::InBlockComment)
            } else if o.strings && s[i] == '"' {
                (1, Type::String, HighlightState::InString('"'))
            } else if o.characters && s[i] == '\'' {
                let rem = s.len() - i;
                let offset: usize = if rem >= 2 && s[i + 1] == '\\' {
                    3
                } else {
                    2
                };
                if rem > offset && s[i + offset] == '\'' {
                    (offset + 1, Type::Character, HighlightState::Normal)
                } else {
                    (1, Type::Plain, HighlightState::Normal)
                }
            } else if o.numbers && is_digit_exec(s[i]) && !(i > 0 && is_ident_char_exec(
                s[i - 1],
            )) {
                let e = number_end_exec(s, i);
                (e - i, Type::Number, HighlightState::Normal)
            } else if is_ident_char_exec(s[i]) {
                let j = ident_end_exec(s, i);
                proof {
                    lemma_ident_end(s@, i as int);
                }
                let boundary = !(i > 0 && is_ident_char_exec(s[i - 1]));
                if boundary && contains_word(&o.primary_keywords, s, i, j) {
                    (j - i, Type::PrimaryKeywords, HighlightState::Normal)
                } else if boundary && contains_word(&o.secondary_keywords, s, i, j) {
                    (j - i, Type::SecondaryKeywords, HighlightState::Normal)
                } else {
                    (j - i, Type::Plain, HighlightState::Normal)
                }
            } else {
                (1, Type::Plain, HighlightState::Normal)
            }
        },
    }
}

fn match_covers_exec(s: &Vec<char>, q: &Vec<char>, p: usize) -> (b: bool)
    requires
        p < s@.len(),
        q@.len() >= 1,
    ensures
        b == match_covers(s@, q@, p as int),
{
    if q.len() > s.len() {
        proof {
            assert(forall|k: int| !match_at(s@, q@, k));
        }
        return false;
    }
    let last = s.len() - q.len();
    let mut k: usize = 0;
    while k <= last
        invariant
            s.len() == s@.len(),
            q.len() == q@.len(),
            k <= last + 1,
            last + q@.len() == s@.len(),
            q@.len() >= 1,
            p < s@.len(),
            forall|x: int| 0 <= x < k ==> !(match_at(s@, q@, x) && x <= p < x + q@.len()),
        decreases last + 1 - k,
    {
        if k <= p && p < k + q.len() && eq_at(s, k, q) {
            proof {
                assert(match_at(s@, q@, k as int) && k <= p < k + q@.len());
            }
            return true;
        }
        proof {
            if match_at(s@, q@, k as int) {
                assert(s@.subrange(k as int, k + q@.len()) == q@);
            }
        }
        k = k + 1;
    }
    proof {
        assert(!match_covers(s@, q@, p as int)) by {
            if match_covers(s@, q@, p as int) {
                let x = choose|x: int| match_at(s@, q@, x) && x <= p < x + q@.len();
                assert(x + q@.len() <= s@.len());
                assert(0 <= x <= last);
            }
        }
    }
    false
}

/// Classifies one row of text entered in lexical state `st`, overlays the
/// occurrences of the query, and reports the state carried into the next row.
pub fn highlight_row(
    content: &Vec<char>,
    o: &HighlightingOptions,
    query: &Option<Vec<char>>,
    st: HighlightState,
) -> (r: (Vec<Type>, HighlightState))
    ensures
        r.0@ == row_highlight(content@, query.deep_view(), st, o@),
        r.0@.len() == content@.len(),
        r.1 == row_end_state(content@, st, o@),
{
    let ghost s = content@;
    let mut base: Vec<Type> = Vec::new();
    let mut st_cur = st;
    let mut i: usize = 0;
    while i < content.len()
        invariant
            i <= s.len(),
            s == content@,
            base@.len() == i,
            lex(s, 0, st, o@).0 == base@ + lex(s, i as int, st_cur, o@).0,
            lex(s, 0, st, o@).1 == lex(s, i as int, st_cur, o@).1,
        decreases s.len() - i,
    {
        let (n, t, st2) = lex_step_exec(content, i, st_cur, o);
        let ghost prev = base@;
        let mut k: usize = 0;
        while k < n
            invariant
                k <= n,
                base@ == prev + Seq::new(k as nat, |x: int| t),
            decreases n - k,
        {
            proof {
                assert(prev + Seq::new((k + 1) as nat, |x: int| t) =~= (prev + Seq::new(
                    k as nat,
                    |x: int| t,
                )).push(t));
            }
            base.push(t);
            k = k + 1;
        }
        proof {
            let step = lex_step(s, i as int, st_cur, o@);
            assert(lex(s, i as int, st_cur, o@).0 == Seq::new(step.n as nat, |x: int| step.t) + lex(
                s,
                i + step.n,
                step.st,
                o@,
            ).0);
            assert(base@ + lex(s, i + n, st2, o@).0 =~= prev + (Seq::new(n as nat, |x: int| t)
                + lex(s, i + n, st2, o@).0));
        }
        st_cur = st2;
        i = i + n;
    }
    proof {
        assert(lex(s, i as int, st_cur, o@).0 =~= Seq::empty());
        assert(lex(s, 0, st, o@).0 =~= base@);
        lemma_lex_len(s, 0, st, o@);
    }
    let out_state = match st_cur {
        HighlightState::InString(_) => HighlightState::Normal,
        other => other,
    };
    match query {
        Option::None => (base, out_state),
        Option::Some(q) => {
            if q.len() == 0 {
                proof {
                    assert(q.deep_view() =~= q@);
                }
                (base, out_state)
            } else {
                let mut out: Vec<Type> = Vec::new();
                let mut p: usize = 0;
                while p < content.len()
                    invariant
                        p <= s.len(),
                        s == content@,
                        q@.len() >= 1,
                        base@.len() == s.len(),
                        base@ == lex_types(s, st, o@),
                        out@.len() == p,
                        forall|x: int|
                            0 <= x < p ==> out@[x] == (if match_covers(s, q@, x) {
                                Type::Match
                            } else {
                                base@[x]
                            }),
                    decreases s.len() - p,
                {
                    let c = match_covers_exec(content, q, p);
                    if c {
                        out.push(Type::Match);
                    } else {
                        out.push(base[p]);
                    }
                    p = p + 1;
                }
                proof {
                    assert(q.deep_view() =~= q@);
                    assert(out@ =~= row_highlight(s, query.deep_view(), st, o@));
                }
                (out, out_state)
            }
        },
    }
}

} // verus!
