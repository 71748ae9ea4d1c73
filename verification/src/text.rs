use vstd::prelude::*;
use vstd::string::StrSliceExecFns;

verus! {

/// The characters of a string slice, gathered into a vector.
pub fn chars_from_str(s: &str) -> (v: Vec<char>)
    ensures
        v@ == s@,
{
    let n = s.unicode_len();
    let mut v: Vec<char> = Vec::new();
    let mut i: usize = 0;
    while i < n
        invariant
            i <= n,
            n == s@.len(),
            v@ =~= s@.subrange(0, i as int),
        decreases n - i,
    {
        v.push(s.get_char(i));
        i = i + 1;
    }
    proof {
        assert(v@ =~= s@);
    }
    v
}

/// Relies on `String`'s `FromIterator` implementation: collecting characters
/// yields the string holding exactly those characters in order.
#[verifier::external_body]
pub fn string_from_chars(v: &Vec<char>) -> (s: String)
    ensures
        s@ == v@,
{
    v.iter().collect()
}

/// The decimal numeral of a non-negative number, most significant digit
/// first.
pub open spec fn spec_decimal(n: int) -> Seq<char>
    decreases n,
{
    if n < 10 {
        seq![((48 + n) as u8) as char]
    } else {
        spec_decimal(n / 10).push(((48 + n % 10) as u8) as char)
    }
}

/// Writes a number in decimal.
pub fn decimal_chars(n: usize) -> (v: Vec<char>)
    ensures
        v@ == spec_decimal(n as int),
    decreases n,
{
    if n < 10 {
        let mut v: Vec<char> = Vec::new();
        let d: u8 = 48 + (n as u8);
        v.push(d as char);
        proof {
            assert(v@ =~= spec_decimal(n as int));
        }
        v
    } else {
        let mut v = decimal_chars(n / 10);
        let d: u8 = 48 + ((n % 10) as u8);
        v.push(d as char);
        v
    }
}

/// Appends the characters of `s` to `v`.
pub fn push_str_chars(v: &mut Vec<char>, s: &str)
    ensures
        final(v)@ == old(v)@ + s@,
{
    let w = chars_from_str(s);
    push_chars(v, &w);
}

/// Appends the characters of `w` to `v`.
pub fn push_chars(v: &mut Vec<char>, w: &Vec<char>)
    ensures
        final(v)@ == old(v)@ + w@,
{
    let mut i: usize = 0;
    let n = w.len();
    while i < n
        invariant
            i <= n,
            n == w@.len(),
            v@ =~= old(v)@ + w@.take(i as int),
        decreases n - i,
    {
        proof {
            assert(old(v)@ + w@.take(i + 1) =~= (old(v)@ + w@.take(i as int)).push(w@[i as int]));
        }
        v.push(w[i]);
        i = i + 1;
    }
    proof {
        assert(v@ =~= old(v)@ + w@);
    }
}

/// The rows of a document, joined by a single newline between neighbours.
pub open spec fn join_rows(rows: Seq<Seq<char>>) -> Seq<char>
    decreases rows.len(),
{
    if rows.len() == 0 {
        Seq::empty()
    } else if rows.len() == 1 {
        rows[0]
    } else {
        rows[0] + seq!['\n'] + join_rows(rows.drop_first())
    }
}

/// The position of the first newline at or after `i`, or the length of `s`
/// when none follows.
pub open spec fn line_break(s: Seq<char>, i: int) -> int
    decreases s.len() - i,
{
    if i < 0 {
        0
    } else if i >= s.len() {
        s.len() as int
    } else if s[i] == '\n' {
        i
    } else {
        line_break(s, i + 1)
    }
}

pub proof fn lemma_line_break_bounds(s: Seq<char>, i: int)
    requires
        0 <= i <= s.len(),
    ensures
        i <= line_break(s, i) <= s.len(),
        forall|j: int| i <= j < line_break(s, i) ==> s[j] != '\n',
        line_break(s, i) < s.len() ==> s[line_break(s, i)] == '\n',
    decreases s.len() - i,
{
    if i < s.len() && s[i] != '\n' {
        lemma_line_break_bounds(s, i + 1);
    }
}

/// `line_break` is pinned by its characterization: if nothing before `k` is a
/// newline and `k` is the length of `s` or a newline, the break from `i` is `k`.
pub proof fn lemma_line_break_value(s: Seq<char>, i: int, k: int)
    requires
        0 <= i <= k <= s.len(),
        forall|j: int| i <= j < k ==> s[j] != '\n',
        k == s.len() || s[k] == '\n',
    ensures
        line_break(s, i) == k,
    decreases k - i,
{
    if i < k {
        lemma_line_break_value(s, i + 1, k);
    }
}

/// The text split at each newline: one row per line, the final row unclosed.
/// Empty text has no rows at all.
pub open spec fn split_lines(s: Seq<char>) -> Seq<Seq<char>>
    decreases s.len(),
    via split_lines_decreases
{
    if s.len() == 0 {
        Seq::empty()
    } else {
        let e = line_break(s, 0);
        if e >= s.len() {
            seq![s]
        } else {
            seq![s.take(e)] + split_lines(s.skip(e + 1))
        }
    }
}

#[via_fn]
proof fn split_lines_decreases(s: Seq<char>) {
    if s.len() > 0 {
        lemma_line_break_bounds(s, 0);
    }
}

/// Saving and re-opening round-trips: splitting the joined rows gives the
/// rows back, provided no row holds a newline and the final row is not empty
/// (a trailing empty row is the one shape the on-disk form cannot retain).
pub proof fn lemma_split_join(rows: Seq<Seq<char>>)
    requires
        forall|i: int| 0 <= i < rows.len() ==> !(#[trigger] rows[i]).contains('\n'),
        rows.len() == 0 || rows.last().len() > 0,
    ensures
        split_lines(join_rows(rows)) == rows,
    decreases rows.len(),
{
    if rows.len() == 0 {
        assert(split_lines(join_rows(rows)) =~= rows);
    } else if rows.len() == 1 {
        let s = join_rows(rows);
        assert(s == rows[0]);
        assert(s.len() > 0);
        assert forall|j: int| 0 <= j < s.len() implies s[j] != '\n' by {
            assert(!rows[0].contains('\n'));
        }
        lemma_line_break_value(s, 0, s.len() as int);
        assert(split_lines(s) =~= rows);
    } else {
        let s = join_rows(rows);
        let r0 = rows[0];
        let rest = rows.drop_first();
        assert(s == r0 + seq!['\n'] + join_rows(rest));
        assert forall|j: int| 0 <= j < r0.len() implies s[j] != '\n' by {
            assert(s[j] == r0[j]);
            assert(!rows[0].contains('\n'));
        }
        assert(s[r0.len() as int] == '\n');
        lemma_line_break_value(s, 0, r0.len() as int);
        let e = line_break(s, 0);
        assert(e == r0.len());
        assert(e < s.len());
        assert(s.take(e) =~= r0);
        assert(s.skip(e + 1) =~= join_rows(rest));
        assert forall|i: int| 0 <= i < rest.len() implies !(#[trigger] rest[i]).contains('\n') by {
            assert(rest[i] == rows[i + 1]);
        }
        assert(rest.last() == rows.last());
        lemma_split_join(rest);
        assert(split_lines(s) =~= seq![s.take(e)] + split_lines(s.skip(e + 1)));
        assert(split_lines(s) =~= rows);
    }
}

} // verus!
