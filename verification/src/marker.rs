//! Extraction of a marker identifier from a decorator annotation line.
//!
//! An annotation declares a marker either in namespaced form,
//! `@pytest.mark.name`, or in bare form, `@name`.  The marker is the first
//! identifier run found immediately after the sigil, skipping the optional
//! namespace prefix; trailing call arguments are ignored.
use vstd::prelude::*;

use crate::text::is_word_char;
use crate::text::exec_is_word_char;
use crate::text::word_end;
use crate::text::find_word_end;
use crate::text::lemma_word_end_all;

verus! {

/// The namespace prefix that may stand between the sigil and the marker.
pub open spec fn marker_prefix() -> Seq<char> {
    seq!['p', 'y', 't', 'e', 's', 't', '.', 'm', 'a', 'r', 'k', '.']
}

/// The marker declared by an annotation whose sigil stands at position `i`,
/// if any: the identifier run right after the namespace prefix when the
/// prefix is present and an identifier follows it, else the identifier run
/// right after the sigil, else nothing.
pub open spec fn match_at(l: Seq<char>, i: int) -> Option<Seq<char>> {
    if i + 13 < l.len() && l.subrange(i + 1, i + 13) == marker_prefix() && is_word_char(
        l[i + 13],
    ) {
        Some(l.subrange(i + 13, word_end(l, i + 13)))
    } else if i + 1 < l.len() && is_word_char(l[i + 1]) {
        Some(l.subrange(i + 1, word_end(l, i + 1)))
    } else {
        None
    }
}

/// The marker declared by the leftmost matching sigil at or after position
/// `i`.
pub open spec fn extract_from(l: Seq<char>, i: int) -> Option<Seq<char>>
    decreases l.len() - i
        when 0 <= i <= l.len()
{
    if i >= l.len() {
        None
    } else if l[i] == '@' && match_at(l, i) is Some {
        match_at(l, i)
    } else {
        extract_from(l, i + 1)
    }
}

/// The marker identifier declared on an annotation line, if any.
pub open spec fn spec_extract_marker(l: Seq<char>) -> Option<Seq<char>> {
    extract_from(l, 0)
}

/// Checks whether the namespace prefix and a first identifier character
/// follow the sigil at position `i`.
fn has_prefixed_marker(line: &str, i: usize) -> (b: bool)
    requires
        i < line@.len(),
    ensures
        b == (i + 13 < line@.len() && line@.subrange(i as int + 1, i as int + 13)
            == marker_prefix() && is_word_char(line@[i as int + 13])),
{
    let n = line.unicode_len();
    if n - i <= 13 {
        return false;
    }
    let mut k: usize = 0;
    while k < 12
        invariant
            0 <= k <= 12,
            i + 13 < n,
            n == line@.len(),
            forall|t: int| 0 <= t < k ==> line@[i as int + 1 + t] == #[trigger] marker_prefix()[t],
        decreases 12 - k,
    {
        let expected: char = if k == 0 {
            'p'
        } else if k == 1 {
            'y'
        } else if k == 2 {
            't'
        } else if k == 3 {
            'e'
        } else if k == 4 {
            's'
        } else if k == 5 {
            't'
        } else if k == 6 {
            '.'
        } else if k == 7 {
            'm'
        } else if k == 8 {
            'a'
        } else if k == 9 {
            'r'
        } else if k == 10 {
            'k'
        } else {
            '.'
        };
        assert(expected == marker_prefix()[k as int]);
        if line.get_char(i + 1 + k) != expected {
            assert(line@.subrange(i as int + 1, i as int + 13) != marker_prefix()) by {
                assert(line@.subrange(i as int + 1, i as int + 13)[k as int] == line@[i as int + 1
                    + k as int]);
            }
            return false;
        }
        k = k + 1;
    }
    assert(line@.subrange(i as int + 1, i as int + 13) =~= marker_prefix());
    exec_is_word_char(line.get_char(i + 13))
}

/// Tries to read a marker for a sigil at position `i`.
fn try_match_at(line: &str, i: usize) -> (r: Option<String>)
    requires
        i < line@.len(),
    ensures
        match r {
            Some(m) => match_at(line@, i as int) == Some(m@),
            None => match_at(line@, i as int) is None,
        },
{
    let n = line.unicode_len();
    if has_prefixed_marker(line, i) {
        let e = find_word_end(line, i + 13);
        let m = line.substring_char(i + 13, e);
        return Some(String::from_str(m));
    }
    if i + 1 < n {
        if exec_is_word_char(line.get_char(i + 1)) {
            let e = find_word_end(line, i + 1);
            let m = line.substring_char(i + 1, e);
            return Some(String::from_str(m));
        }
    }
    None
}

/// Extracts the marker identifier declared on an annotation line: the first
/// identifier run immediately following a sigil, skipping an optional
/// `pytest.mark.` namespace prefix and ignoring trailing call arguments.
pub fn extract_pytest_marker(decorator_line: &str) -> (res: Option<String>)
    ensures
        match res {
            Some(m) => spec_extract_marker(decorator_line@) == Some(m@),
            None => spec_extract_marker(decorator_line@) is None,
        },
{
    let n = decorator_line.unicode_len();
    let mut i: usize = 0;
    while i < n
        invariant
            0 <= i <= n,
            n == decorator_line@.len(),
            extract_from(decorator_line@, 0) == extract_from(decorator_line@, i as int),
        decreases n - i,
    {
        if decorator_line.get_char(i) == '@' {
            let r = try_match_at(decorator_line, i);
            if r.is_some() {
                return r;
            }
        }
        i = i + 1;
    }
    None
}

proof fn lemma_extract_from_sigil(l: Seq<char>, i: int, m: Seq<char>)
    requires
        0 <= i <= l.len(),
        extract_from(l, i) == Some(m),
    ensures
        exists|p: int|
            i <= p < l.len() && #[trigger] l[p] == '@' && match_at(l, p) == Some(m),
    decreases l.len() - i,
{
    if i >= l.len() {
        // contradicts the requires
    } else if l[i] == '@' && match_at(l, i) is Some {
        assert(i <= i < l.len() && l[i] == '@' && match_at(l, i) == Some(m));
    } else {
        lemma_extract_from_sigil(l, i + 1, m);
    }
}

/// An extracted marker always stands immediately after a sigil, either
/// directly or separated from it only by the namespace prefix: an identifier
/// that merely appears elsewhere on the line, such as inside an argument
/// list, is never returned as the marker.
pub proof fn lemma_marker_follows_sigil(l: Seq<char>, m: Seq<char>)
    requires
        spec_extract_marker(l) == Some(m),
    ensures
        exists|p: int|
            {
                &&& 0 <= p < l.len()
                &&& #[trigger] l[p] == '@'
                &&& ((l.subrange(p + 1, p + 13) == marker_prefix() && m == l.subrange(
                    p + 13,
                    word_end(l, p + 13),
                )) || m == l.subrange(p + 1, word_end(l, p + 1)))
            },
{
    lemma_extract_from_sigil(l, 0, m);
    let p = choose|p: int| 0 <= p < l.len() && #[trigger] l[p] == '@' && match_at(l, p) == Some(m);
    if p + 13 < l.len() && l.subrange(p + 1, p + 13) == marker_prefix() && is_word_char(
        l[p + 13],
    ) {
        assert(l[p] == '@' && l.subrange(p + 1, p + 13) == marker_prefix() && m == l.subrange(
            p + 13,
            word_end(l, p + 13),
        ));
    } else {
        assert(l[p] == '@' && m == l.subrange(p + 1, word_end(l, p + 1)));
    }
}

/// The namespaced and the bare annotation style declare the same marker: for
/// any identifier, `@pytest.mark.<identifier>` and `@<identifier>` both
/// yield exactly that identifier.
pub proof fn lemma_marker_styles_agree(m: Seq<char>)
    requires
        m.len() > 0,
        forall|k: int| 0 <= k < m.len() ==> is_word_char(#[trigger] m[k]),
    ensures
        spec_extract_marker(seq!['@'] + marker_prefix() + m) == Some(m),
        spec_extract_marker(seq!['@'] + m) == Some(m),
{
    let l1 = seq!['@'] + marker_prefix() + m;
    assert(l1.len() == 13 + m.len());
    assert(l1[0] == '@');
    assert(l1.subrange(1, 13) =~= marker_prefix());
    assert(forall|k: int| 13 <= k < l1.len() ==> is_word_char(#[trigger] l1[k]) && l1[k] == m[k
        - 13]);
    lemma_word_end_all(l1, 13);
    assert(l1.subrange(13, l1.len() as int) =~= m);
    assert(match_at(l1, 0) == Some(m));
    assert(extract_from(l1, 0) == Some(m));

    let l2 = seq!['@'] + m;
    assert(l2.len() == 1 + m.len());
    assert(l2[0] == '@');
    assert(forall|k: int| 1 <= k < l2.len() ==> is_word_char(#[trigger] l2[k]) && l2[k] == m[k - 1]);
    if 13 < l2.len() && l2.subrange(1, 13) == marker_prefix() {
        assert(l2.subrange(1, 13)[6] == l2[7]);
        assert(marker_prefix()[6] == '.');
        assert(is_word_char(l2[7]));
        assert(!is_word_char('.'));
        assert(false);
    }
    assert(is_word_char(l2[1]));
    lemma_word_end_all(l2, 1);
    assert(l2.subrange(1, l2.len() as int) =~= m);
    assert(match_at(l2, 0) == Some(m));
    assert(extract_from(l2, 0) == Some(m));
}

} // verus!
