//! The decorator scanner: walks backward from a definition header across the
//! contiguous block of annotation lines above it and collects the markers
//! declared there.
//!
//! Three delimiter-depth counters, one each for round, square and curly
//! brackets, recognise multi-line annotation calls: an ordinary code line
//! ends the block only while all three depths are zero, so the interior
//! lines of an unclosed call are walked over rather than mistaken for the
//! end of the block.  The depths are never clamped; on text with unbalanced
//! delimiters they may go negative.
use vstd::prelude::*;

use crate::marker::extract_pytest_marker;
use crate::marker::spec_extract_marker;
use crate::text::is_blank;
use crate::text::is_decorator_line;
use crate::text::line_delta;
use crate::text::line_deltas;
use crate::text::line_is_blank;
use crate::text::line_is_decorator;
use crate::text::lemma_line_delta_bound;
use crate::text::lemma_total_len_nonneg;
use crate::text::lemma_total_len_sub_le;
use crate::text::lemma_total_len_unfold;
use crate::text::total_len;

verus! {

/// One backward step of the scanner, walking from line `j` down to the start
/// of the text with the given delimiter depths and the markers collected so
/// far.  Blank lines are walked over unchanged; a decorator line contributes
/// its marker, if it declares one, and the scan goes on; any other line ends
/// the scan when all depths are zero after counting its delimiters, and is
/// treated as the interior of a multi-line call otherwise.
pub open spec fn scan_markers(
    lls: Seq<Seq<char>>,
    j: int,
    p: int,
    sq: int,
    cu: int,
    acc: Set<Seq<char>>,
) -> Set<Seq<char>>
    decreases j + 1
        when j < lls.len()
{
    if j < 0 {
        acc
    } else {
        let l = lls[j];
        if is_blank(l) {
            scan_markers(lls, j - 1, p, sq, cu, acc)
        } else {
            let p2 = p + line_delta(l, '(', ')');
            let sq2 = sq + line_delta(l, '[', ']');
            let cu2 = cu + line_delta(l, '{', '}');
            if is_decorator_line(l) {
                let acc2 = if spec_extract_marker(l) is Some {
                    acc.insert(spec_extract_marker(l)->Some_0)
                } else {
                    acc
                };
                scan_markers(lls, j - 1, p2, sq2, cu2, acc2)
            } else if p2 == 0 && sq2 == 0 && cu2 == 0 {
                acc
            } else {
                scan_markers(lls, j - 1, p2, sq2, cu2, acc)
            }
        }
    }
}

/// The set of markers declared by the decorator block immediately above line
/// `i`.
pub open spec fn scan_decorators(lls: Seq<Seq<char>>, i: int) -> Set<Seq<char>> {
    scan_markers(lls, i - 1, 0, 0, 0, Set::empty())
}

/// Appending one marker to the collected list inserts it into the collected
/// set.
proof fn lemma_to_set_push(s: Seq<Seq<char>>, x: Seq<char>)
    ensures
        s.push(x).to_set() == s.to_set().insert(x),
{
    let t = s.push(x);
    assert forall|y: Seq<char>| t.to_set().contains(y) implies s.to_set().insert(x).contains(
        y,
    ) by {
        let idx = choose|idx: int| 0 <= idx < t.len() && t[idx] == y;
        if idx < s.len() {
            assert(s[idx] == y);
            assert(s.contains(y));
        } else {
            assert(y == x);
        }
    }
    assert forall|y: Seq<char>| s.to_set().insert(x).contains(y) implies t.to_set().contains(
        y,
    ) by {
        if y == x {
            assert(t[t.len() - 1] == y);
        } else {
            let idx = choose|idx: int| 0 <= idx < s.len() && s[idx] == y;
            assert(t[idx] == y);
        }
    }
    assert(t.to_set() =~= s.to_set().insert(x));
}

/// Exec decorator scanner: returns the markers declared above line `i`, one
/// entry per declaration found.
pub fn scan_decorators_above(lines: &Vec<&str>, i: usize) -> (res: Vec<String>)
    requires
        i <= lines@.len(),
        total_len(lines.deep_view()) <= u64::MAX as int,
    ensures
        res.deep_view().to_set() == scan_decorators(lines.deep_view(), i as int),
{
    let ghost lls = lines.deep_view();
    let ghost target = scan_decorators(lls, i as int);
    let mut acc: Vec<String> = Vec::new();
    let mut p: i128 = 0;
    let mut sq: i128 = 0;
    let mut cu: i128 = 0;
    let mut j: usize = i;
    proof {
        lemma_total_len_nonneg(lls.subrange(i as int, i as int));
        assert(acc.deep_view().to_set() =~= Set::<Seq<char>>::empty());
    }
    while j > 0
        invariant
            j <= i <= lines@.len(),
            lls == lines.deep_view(),
            total_len(lls) <= u64::MAX as int,
            -total_len(lls.subrange(j as int, i as int)) <= p <= total_len(
                lls.subrange(j as int, i as int),
            ),
            -total_len(lls.subrange(j as int, i as int)) <= sq <= total_len(
                lls.subrange(j as int, i as int),
            ),
            -total_len(lls.subrange(j as int, i as int)) <= cu <= total_len(
                lls.subrange(j as int, i as int),
            ),
            scan_markers(lls, j as int - 1, p as int, sq as int, cu as int,
                acc.deep_view().to_set(),
            ) == target,
        decreases j,
    {
        j = j - 1;
        let line = lines[j];
        proof {
            assert(line@ == lls[j as int]);
            lemma_total_len_unfold(lls, j as int, i as int);
            lemma_total_len_nonneg(lls.subrange(j as int + 1, i as int));
            lemma_total_len_sub_le(lls, j as int, i as int);
        }
        if line_is_blank(line) {
            continue ;
        }
        let d = line_deltas(line);
        proof {
            lemma_line_delta_bound(line@, '(', ')');
            lemma_line_delta_bound(line@, '[', ']');
            lemma_line_delta_bound(line@, '{', '}');
        }
        p = p + d.0;
        sq = sq + d.1;
        cu = cu + d.2;
        if line_is_decorator(line) {
            let ghost before = acc.deep_view().to_set();
            match extract_pytest_marker(line) {
                Some(m) => {
                    let ghost prev = acc.deep_view();
                    acc.push(m);
                    proof {
                        assert(acc.deep_view() =~= prev.push(m@));
                        lemma_to_set_push(prev, m@);
                    }
                },
                None => {},
            }
        } else if p == 0 && sq == 0 && cu == 0 {
            return acc;
        }
    }
    acc
}

/// Every marker the scanner collects was declared on a decorator line above
/// the definition header: the interior lines of a multi-line annotation call
/// never contribute a marker of their own.
pub proof fn lemma_markers_from_decorator_lines(lls: Seq<Seq<char>>, i: int, m: Seq<char>)
    requires
        0 <= i <= lls.len(),
        scan_decorators(lls, i).contains(m),
    ensures
        exists|j: int|
            0 <= j < i && is_decorator_line(#[trigger] lls[j]) && spec_extract_marker(lls[j])
                == Some(m),
{
    lemma_scan_markers_source(lls, i - 1, 0, 0, 0, Set::empty(), m);
}

proof fn lemma_scan_markers_source(
    lls: Seq<Seq<char>>,
    j: int,
    p: int,
    sq: int,
    cu: int,
    acc: Set<Seq<char>>,
    m: Seq<char>,
)
    requires
        j < lls.len(),
        scan_markers(lls, j, p, sq, cu, acc).contains(m),
    ensures
        acc.contains(m) || exists|jj: int|
            0 <= jj <= j && is_decorator_line(#[trigger] lls[jj]) && spec_extract_marker(lls[jj])
                == Some(m),
    decreases j + 1,
{
    if j < 0 {
    } else {
        let l = lls[j];
        if is_blank(l) {
            lemma_scan_markers_source(lls, j - 1, p, sq, cu, acc, m);
        } else {
            let p2 = p + line_delta(l, '(', ')');
            let sq2 = sq + line_delta(l, '[', ']');
            let cu2 = cu + line_delta(l, '{', '}');
            if is_decorator_line(l) {
                let acc2 = if spec_extract_marker(l) is Some {
                    acc.insert(spec_extract_marker(l)->Some_0)
                } else {
                    acc
                };
                lemma_scan_markers_source(lls, j - 1, p2, sq2, cu2, acc2, m);
                if acc2.contains(m) && !acc.contains(m) {
                    assert(spec_extract_marker(l) == Some(m));
                }
            } else if p2 == 0 && sq2 == 0 && cu2 == 0 {
            } else {
                lemma_scan_markers_source(lls, j - 1, p2, sq2, cu2, acc, m);
            }
        }
    }
}

} // verus!
