//! Character classes, indentation, word runs, delimiter counting and the
//! split of a source text into lines.
use vstd::prelude::*;

verus! {

/// Whitespace characters: the ASCII spacing characters that separate the
/// tokens of a definition header and make up indentation.
pub open spec fn is_wspace(c: char) -> bool {
    c == ' ' || c == '\t' || c == '\n' || c == '\r' || c == '\u{b}' || c == '\u{c}'
}

/// Identifier characters: ASCII letters, digits and the underscore.
pub open spec fn is_word_char(c: char) -> bool {
    ('a' <= c && c <= 'z') || ('A' <= c && c <= 'Z') || ('0' <= c && c <= '9') || c == '_'
}

pub fn exec_is_wspace(c: char) -> (b: bool)
    ensures
        b == is_wspace(c),
{
    c == ' ' || c == '\t' || c == '\n' || c == '\r' || c == '\u{b}' || c == '\u{c}'
}

pub fn exec_is_word_char(c: char) -> (b: bool)
    ensures
        b == is_word_char(c),
{
    ('a' <= c && c <= 'z') || ('A' <= c && c <= 'Z') || ('0' <= c && c <= '9') || c == '_'
}

/// First position at or after `i` holding a non-whitespace character, or the
/// line length if none follows.
pub open spec fn skip_wspace(l: Seq<char>, i: int) -> int
    decreases l.len() - i
        when 0 <= i <= l.len()
{
    if i >= l.len() {
        l.len() as int
    } else if is_wspace(l[i]) {
        skip_wspace(l, i + 1)
    } else {
        i
    }
}

/// The indentation level of a line: the number of leading whitespace
/// characters.
pub open spec fn indent_of(l: Seq<char>) -> int {
    skip_wspace(l, 0)
}

/// A line is blank when it holds nothing but whitespace.
pub open spec fn is_blank(l: Seq<char>) -> bool {
    indent_of(l) == l.len()
}

/// A decorator line: the first non-whitespace character is the `@` sigil.
pub open spec fn is_decorator_line(l: Seq<char>) -> bool {
    indent_of(l) < l.len() && l[indent_of(l)] == '@'
}

/// First position at or after `i` holding a non-identifier character, or the
/// line length if the identifier run reaches the end of the line.
pub open spec fn word_end(l: Seq<char>, i: int) -> int
    decreases l.len() - i
        when 0 <= i <= l.len()
{
    if i >= l.len() {
        l.len() as int
    } else if is_word_char(l[i]) {
        word_end(l, i + 1)
    } else {
        i
    }
}

pub proof fn lemma_skip_wspace_bounds(l: Seq<char>, i: int)
    requires
        0 <= i <= l.len(),
    ensures
        i <= skip_wspace(l, i) <= l.len(),
        skip_wspace(l, i) < l.len() ==> !is_wspace(l[skip_wspace(l, i)]),
        forall|k: int| i <= k < skip_wspace(l, i) ==> is_wspace(#[trigger] l[k]),
    decreases l.len() - i,
{
    if i < l.len() && is_wspace(l[i]) {
        lemma_skip_wspace_bounds(l, i + 1);
    }
}

pub proof fn lemma_word_end_bounds(l: Seq<char>, i: int)
    requires
        0 <= i <= l.len(),
    ensures
        i <= word_end(l, i) <= l.len(),
        word_end(l, i) < l.len() ==> !is_word_char(l[word_end(l, i)]),
        forall|k: int| i <= k < word_end(l, i) ==> is_word_char(#[trigger] l[k]),
    decreases l.len() - i,
{
    if i < l.len() && is_word_char(l[i]) {
        lemma_word_end_bounds(l, i + 1);
    }
}

/// A run of identifier characters that reaches the end of the line ends
/// exactly there.
pub proof fn lemma_word_end_all(l: Seq<char>, i: int)
    requires
        0 <= i <= l.len(),
        forall|k: int| i <= k < l.len() ==> is_word_char(#[trigger] l[k]),
    ensures
        word_end(l, i) == l.len(),
    decreases l.len() - i,
{
    if i < l.len() {
        lemma_word_end_all(l, i + 1);
    }
}

/// Exec counterpart of `skip_wspace`.
pub fn find_skip_wspace(line: &str, start: usize) -> (r: usize)
    requires
        start <= line@.len(),
    ensures
        r == skip_wspace(line@, start as int),
        start <= r <= line@.len(),
{
    let n = line.unicode_len();
    let mut i = start;
    while i < n
        invariant
            start <= i <= n,
            n == line@.len(),
            skip_wspace(line@, start as int) == skip_wspace(line@, i as int),
        decreases n - i,
    {
        if !exec_is_wspace(line.get_char(i)) {
            return i;
        }
        i = i + 1;
    }
    i
}

/// Exec counterpart of `word_end`.
pub fn find_word_end(line: &str, start: usize) -> (r: usize)
    requires
        start <= line@.len(),
    ensures
        r == word_end(line@, start as int),
        start <= r <= line@.len(),
{
    let n = line.unicode_len();
    let mut i = start;
    while i < n
        invariant
            start <= i <= n,
            n == line@.len(),
            word_end(line@, start as int) == word_end(line@, i as int),
        decreases n - i,
    {
        if !exec_is_word_char(line.get_char(i)) {
            return i;
        }
        i = i + 1;
    }
    i
}

/// Exec counterpart of `indent_of`.
pub fn line_indent(line: &str) -> (r: usize)
    ensures
        r == indent_of(line@),
{
    find_skip_wspace(line, 0)
}

/// Exec counterpart of `is_blank`.
pub fn line_is_blank(line: &str) -> (b: bool)
    ensures
        b == is_blank(line@),
{
    let ind = line_indent(line);
    proof {
        lemma_skip_wspace_bounds(line@, 0);
    }
    ind == line.unicode_len()
}

/// Exec counterpart of `is_decorator_line`.
pub fn line_is_decorator(line: &str) -> (b: bool)
    ensures
        b == is_decorator_line(line@),
{
    let ind = line_indent(line);
    proof {
        lemma_skip_wspace_bounds(line@, 0);
    }
    if ind < line.unicode_len() {
        line.get_char(ind) == '@'
    } else {
        false
    }
}

/// Contribution of one character to a delimiter depth: opening adds one,
/// closing takes one away.
pub open spec fn delim_delta(c: char, open: char, close: char) -> int {
    if c == open {
        1
    } else if c == close {
        -1
    } else {
        0
    }
}

/// Net delimiter depth contributed by a whole line: opens minus closes.
pub open spec fn line_delta(l: Seq<char>, open: char, close: char) -> int
    decreases l.len(),
{
    if l.len() == 0 {
        0
    } else {
        line_delta(l.drop_last(), open, close) + delim_delta(l.last(), open, close)
    }
}

pub proof fn lemma_line_delta_bound(l: Seq<char>, open: char, close: char)
    ensures
        -(l.len() as int) <= line_delta(l, open, close) <= l.len() as int,
    decreases l.len(),
{
    if l.len() > 0 {
        lemma_line_delta_bound(l.drop_last(), open, close);
    }
}

/// Exec delimiter count for one line, for all three delimiter pairs at once:
/// round, square and curly brackets.
pub fn line_deltas(line: &str) -> (d: (i128, i128, i128))
    ensures
        d.0 == line_delta(line@, '(', ')'),
        d.1 == line_delta(line@, '[', ']'),
        d.2 == line_delta(line@, '{', '}'),
{
    let n = line.unicode_len();
    let mut dp: i128 = 0;
    let mut ds: i128 = 0;
    let mut dc: i128 = 0;
    let mut i: usize = 0;
    while i < n
        invariant
            0 <= i <= n,
            n == line@.len(),
            dp == line_delta(line@.take(i as int), '(', ')'),
            ds == line_delta(line@.take(i as int), '[', ']'),
            dc == line_delta(line@.take(i as int), '{', '}'),
            -(i as int) <= dp <= i as int,
            -(i as int) <= ds <= i as int,
            -(i as int) <= dc <= i as int,
        decreases n - i,
    {
        let c = line.get_char(i);
        proof {
            assert(line@.take(i as int + 1).drop_last() =~= line@.take(i as int));
            assert(line@.take(i as int + 1).last() == line@[i as int]);
        }
        if c == '(' {
            dp = dp + 1;
        } else if c == ')' {
            dp = dp - 1;
        } else if c == '[' {
            ds = ds + 1;
        } else if c == ']' {
            ds = ds - 1;
        } else if c == '{' {
            dc = dc + 1;
        } else if c == '}' {
            dc = dc - 1;
        }
        i = i + 1;
    }
    proof {
        assert(line@.take(n as int) =~= line@);
    }
    (dp, ds, dc)
}

/// First position at or after `i` holding a line-feed character, or the text
/// length if none follows.
pub open spec fn line_break(s: Seq<char>, i: int) -> int
    decreases s.len() - i
        when 0 <= i <= s.len()
{
    if i >= s.len() {
        s.len() as int
    } else if s[i] == '\n' {
        i
    } else {
        line_break(s, i + 1)
    }
}

pub proof fn lemma_line_break_bounds(s: Seq<char>, i: int)
    requires
        0 <= i <= s.len(),
    ensures
        i <= line_break(s, i) <= s.len(),
        line_break(s, i) < s.len() ==> s[line_break(s, i)] == '\n',
    decreases s.len() - i,
{
    if i < s.len() && s[i] != '\n' {
        lemma_line_break_bounds(s, i + 1);
    }
}

/// A carriage return just before the line feed belongs to the line ending and
/// is not part of the line.
pub open spec fn strip_cr(l: Seq<char>) -> Seq<char> {
    if l.len() > 0 && l.last() == '\r' {
        l.drop_last()
    } else {
        l
    }
}

/// The lines of the text from position `i` on, split at line feeds.  A line
/// ending may be a line feed or a carriage return followed by a line feed; a
/// final line needs no ending, and a text that ends with a line ending yields
/// no extra empty line.
pub open spec fn lines_from(s: Seq<char>, i: int) -> Seq<Seq<char>>
    decreases s.len() - i
        when 0 <= i <= s.len()
        via lines_from_decreases
{
    if i >= s.len() {
        Seq::empty()
    } else {
        let j = line_break(s, i);
        if j < s.len() {
            seq![strip_cr(s.subrange(i, j))] + lines_from(s, j + 1)
        } else {
            seq![s.subrange(i, j)]
        }
    }
}

#[via_fn]
proof fn lines_from_decreases(s: Seq<char>, i: int) {
    lemma_line_break_bounds(s, i);
}

/// All the lines of a text.
pub open spec fn spec_lines(s: Seq<char>) -> Seq<Seq<char>> {
    lines_from(s, 0)
}

/// Sum of the lengths of a sequence of lines.
pub open spec fn total_len(lls: Seq<Seq<char>>) -> int
    decreases lls.len(),
{
    if lls.len() == 0 {
        0
    } else {
        lls.first().len() + total_len(lls.drop_first())
    }
}

pub proof fn lemma_total_len_nonneg(lls: Seq<Seq<char>>)
    ensures
        total_len(lls) >= 0,
    decreases lls.len(),
{
    if lls.len() > 0 {
        lemma_total_len_nonneg(lls.drop_first());
    }
}

/// Peeling the first line off a span of the line sequence.
pub proof fn lemma_total_len_unfold(lls: Seq<Seq<char>>, a: int, b: int)
    requires
        0 <= a < b <= lls.len(),
    ensures
        total_len(lls.subrange(a, b)) == lls[a].len() + total_len(lls.subrange(a + 1, b)),
{
    let sub = lls.subrange(a, b);
    assert(sub.first() == lls[a]);
    assert(sub.drop_first() =~= lls.subrange(a + 1, b));
}

pub proof fn lemma_total_len_sub_le(lls: Seq<Seq<char>>, a: int, b: int)
    requires
        0 <= a <= b <= lls.len(),
    ensures
        0 <= total_len(lls.subrange(a, b)) <= total_len(lls),
    decreases a + (lls.len() - b),
{
    lemma_total_len_nonneg(lls.subrange(a, b));
    if a > 0 {
        lemma_total_len_unfold(lls, a - 1, b);
        lemma_total_len_sub_le(lls, a - 1, b);
    } else if b < lls.len() {
        lemma_total_len_unfold(lls, a, b + 1);
        lemma_total_len_sub_le(lls, a, b + 1);
        assert(lls.subrange(a, b + 1).subrange(0, b - a) =~= lls.subrange(a, b));
        lemma_total_len_sub_prefix(lls.subrange(a, b + 1), b - a);
    } else {
        assert(lls.subrange(0, lls.len() as int) =~= lls);
    }
}

/// A prefix of a line sequence weighs no more than the whole.
proof fn lemma_total_len_sub_prefix(lls: Seq<Seq<char>>, k: int)
    requires
        0 <= k <= lls.len(),
    ensures
        total_len(lls.subrange(0, k)) <= total_len(lls),
    decreases k,
{
    lemma_total_len_nonneg(lls);
    if k > 0 {
        lemma_total_len_unfold_full(lls);
        lemma_total_len_unfold(lls, 0, k);
        assert(lls.subrange(0, k).drop_first() =~= lls.drop_first().subrange(0, k - 1));
        assert(lls.subrange(1, k) =~= lls.drop_first().subrange(0, k - 1));
        lemma_total_len_sub_prefix(lls.drop_first(), k - 1);
    }
}

proof fn lemma_total_len_unfold_full(lls: Seq<Seq<char>>)
    requires
        lls.len() > 0,
    ensures
        total_len(lls) == lls.first().len() + total_len(lls.drop_first()),
{
}

/// The lines of a text never hold more characters than the text itself.
pub proof fn lemma_lines_total_len(s: Seq<char>, i: int)
    requires
        0 <= i <= s.len(),
    ensures
        total_len(lines_from(s, i)) <= s.len() - i,
    decreases s.len() - i,
{
    if i < s.len() {
        let j = line_break(s, i);
        lemma_line_break_bounds(s, i);
        if j < s.len() {
            lemma_lines_total_len(s, j + 1);
            let rest = lines_from(s, j + 1);
            let lls = lines_from(s, i);
            assert(lls == seq![strip_cr(s.subrange(i, j))] + rest);
            assert(lls.len() > 0);
            assert(lls.first() == strip_cr(s.subrange(i, j)));
            assert(lls.drop_first() =~= rest);
            assert(total_len(lls) == lls.first().len() + total_len(lls.drop_first()));
            assert(strip_cr(s.subrange(i, j)).len() <= j - i);
        } else {
            let lls = lines_from(s, i);
            assert(lls == seq![s.subrange(i, j)]);
            assert(lls.len() > 0);
            assert(lls.first() == s.subrange(i, j));
            assert(lls.drop_first() =~= Seq::<Seq<char>>::empty());
            assert(total_len(lls) == lls.first().len() + total_len(lls.drop_first()));
            assert(total_len(Seq::<Seq<char>>::empty()) == 0);
        }
    }
}

/// Splits a text into its lines, each a slice of the original text.
pub fn split_lines<'a>(content: &'a str) -> (lines: Vec<&'a str>)
    ensures
        lines.deep_view() == spec_lines(content@),
        total_len(lines.deep_view()) <= content@.len(),
{
    proof {
        lemma_lines_total_len(content@, 0);
    }
    let n = content.unicode_len();
    let mut lines: Vec<&'a str> = Vec::new();
    let mut i: usize = 0;
    while i < n
        invariant
            0 <= i <= n,
            n == content@.len(),
            spec_lines(content@) =~= lines.deep_view() + lines_from(content@, i as int),
        decreases n - i,
    {
        let ghost prev = lines.deep_view();
        let ghost i0 = i as int;
        // find the end of the current line
        let mut j: usize = i;
        while j < n
            invariant
                i <= j <= n,
                n == content@.len(),
                line_break(content@, i as int) == line_break(content@, j as int),
            decreases n - j,
        {
            if content.get_char(j) == '\n' {
                break ;
            }
            j = j + 1;
        }
        proof {
            lemma_line_break_bounds(content@, i as int);
        }
        // j == line_break(content@, i)
        let terminated = j < n;
        let end = if terminated && j > i && content.get_char(j - 1) == '\r' {
            j - 1
        } else {
            j
        };
        let piece = content.substring_char(i, end);
        proof {
            let full = content@.subrange(i as int, j as int);
            if terminated {
                if j > i && content@[j as int - 1] == '\r' {
                    assert(full.len() > 0 && full.last() == '\r');
                    assert(full.drop_last() =~= content@.subrange(i as int, j as int - 1));
                    assert(piece@ == strip_cr(full));
                } else {
                    assert(piece@ =~= strip_cr(full));
                }
            }
        }
        lines.push(piece);
        proof {
            assert(lines.deep_view() =~= prev.push(piece@));
        }
        if terminated {
            i = j + 1;
            proof {
                assert(lines_from(content@, i0) == seq![piece@] + lines_from(
                    content@,
                    j as int + 1,
                ));
                assert(lines.deep_view() + lines_from(content@, j as int + 1) =~= prev + (
                seq![piece@] + lines_from(content@, j as int + 1)));
            }
        } else {
            i = n;
            proof {
                assert(lines_from(content@, i0) == seq![piece@]);
                assert(lines.deep_view() + lines_from(content@, n as int) =~= prev
                    + seq![piece@]);
            }
        }
    }
    proof {
        assert(lines.deep_view() =~= lines.deep_view() + lines_from(content@, n as int));
    }
    lines
}

} // verus!
