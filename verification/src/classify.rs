//! Recognition of class-definition headers and test-function headers.
//!
//! A class header is optional leading whitespace, the keyword `class`, at
//! least one whitespace character, and an identifier.  A test-function
//! header is optional leading whitespace, the keyword `def`, at least one
//! whitespace character, an identifier beginning with `test_` followed by at
//! least one further identifier character, optional whitespace, and an
//! opening parenthesis.
use vstd::prelude::*;

use crate::text::exec_is_word_char;
use crate::text::exec_is_wspace;
use crate::text::find_skip_wspace;
use crate::text::find_word_end;
use crate::text::indent_of;
use crate::text::is_word_char;
use crate::text::is_wspace;
use crate::text::lemma_skip_wspace_bounds;
use crate::text::lemma_word_end_bounds;
use crate::text::line_indent;
use crate::text::skip_wspace;
use crate::text::word_end;

verus! {

pub open spec fn class_kw() -> Seq<char> {
    seq!['c', 'l', 'a', 's', 's']
}

pub open spec fn def_kw() -> Seq<char> {
    seq!['d', 'e', 'f']
}

pub open spec fn test_prefix() -> Seq<char> {
    seq!['t', 'e', 's', 't', '_']
}

/// A class-definition header line.
pub open spec fn is_class_line(l: Seq<char>) -> bool {
    let ind = indent_of(l);
    &&& ind + 5 <= l.len()
    &&& l.subrange(ind, ind + 5) == class_kw()
    &&& ind + 5 < l.len()
    &&& is_wspace(l[ind + 5])
    &&& {
        let w = skip_wspace(l, ind + 5);
        w < l.len() && is_word_char(l[w])
    }
}

/// Start of the function name on a test-function header line: the first
/// position after the `def` keyword and the whitespace that follows it.
pub open spec fn test_name_start(l: Seq<char>) -> int {
    skip_wspace(l, indent_of(l) + 3)
}

/// A test-function header line: `def`, whitespace, a name beginning with
/// `test_`, optional whitespace, then an opening parameter list.
pub open spec fn is_test_fn_line(l: Seq<char>) -> bool {
    let ind = indent_of(l);
    &&& ind + 3 <= l.len()
    &&& l.subrange(ind, ind + 3) == def_kw()
    &&& ind + 3 < l.len()
    &&& is_wspace(l[ind + 3])
    &&& {
        let w = skip_wspace(l, ind + 3);
        &&& w + 5 < l.len()
        &&& l.subrange(w, w + 5) == test_prefix()
        &&& is_word_char(l[w + 5])
        &&& {
            let q = skip_wspace(l, word_end(l, w + 5));
            q < l.len() && l[q] == '('
        }
    }
}

/// The full name of the test function defined on a header line.
pub open spec fn test_fn_name(l: Seq<char>) -> Seq<char> {
    let w = test_name_start(l);
    l.subrange(w, word_end(l, w + 5))
}

/// Checks whether the characters of `kw` stand at position `at` of the line.
fn match_keyword(line: &str, at: usize, kw: &str) -> (b: bool)
    requires
        at <= line@.len(),
    ensures
        b == (at + kw@.len() <= line@.len() && line@.subrange(
            at as int,
            at as int + kw@.len() as int,
        ) == kw@),
{
    let n = line.unicode_len();
    let m = kw.unicode_len();
    if n - at < m {
        return false;
    }
    let mut k: usize = 0;
    while k < m
        invariant
            0 <= k <= m,
            m == kw@.len(),
            at + m <= n,
            n == line@.len(),
            forall|t: int| 0 <= t < k ==> line@[at as int + t] == #[trigger] kw@[t],
        decreases m - k,
    {
        if line.get_char(at + k) != kw.get_char(k) {
            assert(line@.subrange(at as int, at as int + m as int) != kw@) by {
                assert(line@.subrange(at as int, at as int + m as int)[k as int] == line@[at as int
                    + k as int]);
            }
            return false;
        }
        k = k + 1;
    }
    assert(line@.subrange(at as int, at as int + m as int) =~= kw@);
    true
}

/// Recognises a class-definition header and returns its indentation level.
pub fn classify_class_line(line: &str) -> (r: Option<usize>)
    ensures
        r is Some <==> is_class_line(line@),
        r matches Some(ind) ==> ind == indent_of(line@),
{
    let n = line.unicode_len();
    let ind = line_indent(line);
    proof {
        lemma_skip_wspace_bounds(line@, 0);
        reveal_strlit("class");
        assert("class"@ =~= class_kw());
    }
    if !match_keyword(line, ind, "class") {
        return None;
    }
    if ind + 5 >= n {
        return None;
    }
    if !exec_is_wspace(line.get_char(ind + 5)) {
        return None;
    }
    let w = find_skip_wspace(line, ind + 5);
    if w < n && exec_is_word_char(line.get_char(w)) {
        Some(ind)
    } else {
        None
    }
}

/// Recognises a test-function header and returns its indentation level and
/// the function's name.
pub fn classify_test_line<'a>(line: &'a str) -> (r: Option<(usize, &'a str)>)
    ensures
        r is Some <==> is_test_fn_line(line@),
        r matches Some((ind, name)) ==> ind == indent_of(line@) && name@ == test_fn_name(line@),
{
    let n = line.unicode_len();
    let ind = line_indent(line);
    proof {
        lemma_skip_wspace_bounds(line@, 0);
        reveal_strlit("def");
        assert("def"@ =~= def_kw());
        reveal_strlit("test_");
        assert("test_"@ =~= test_prefix());
    }
    if !match_keyword(line, ind, "def") {
        return None;
    }
    if ind + 3 >= n {
        return None;
    }
    if !exec_is_wspace(line.get_char(ind + 3)) {
        return None;
    }
    let w = find_skip_wspace(line, ind + 3);
    if !match_keyword(line, w, "test_") {
        return None;
    }
    if n - w <= 5 {
        return None;
    }
    if !exec_is_word_char(line.get_char(w + 5)) {
        return None;
    }
    let e = find_word_end(line, w + 5);
    let q = find_skip_wspace(line, e);
    proof {
        lemma_word_end_bounds(line@, w as int + 5);
        lemma_skip_wspace_bounds(line@, e as int);
    }
    if q < n && line.get_char(q) == '(' {
        let name = line.substring_char(w, e);
        Some((ind, name))
    } else {
        None
    }
}

} // verus!
