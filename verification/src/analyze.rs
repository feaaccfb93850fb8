//! The line classifier and analysis engine.
//!
//! A forward scan over the lines of a file recognises class headers and
//! test-function headers.  Class headers update the set of active class
//! scopes, keyed by indentation: a new class closes every scope at the same
//! or a deeper indentation, and opens one of its own when its decorators
//! declare any markers.  A test function is reported unless an enclosing
//! class scope or its own decorators carry an excluded marker.
use vstd::prelude::*;

use crate::classify::classify_class_line;
use crate::classify::classify_test_line;
use crate::classify::is_class_line;
use crate::classify::is_test_fn_line;
use crate::classify::test_fn_name;
use crate::scan::scan_decorators;
use crate::scan::scan_decorators_above;
use crate::text::indent_of;
use crate::text::spec_lines;
use crate::text::split_lines;
use crate::text::total_len;

verus! {

/// One active class scope: the indentation level of the class header and the
/// markers declared on it.
pub struct ClassEntry {
    pub indent: usize,
    pub markers: Vec<String>,
}

impl View for ClassEntry {
    type V = (int, Set<Seq<char>>);

    open spec fn view(&self) -> (int, Set<Seq<char>>) {
        (self.indent as int, self.markers.deep_view().to_set())
    }
}

pub open spec fn entries_view(s: Seq<ClassEntry>) -> Seq<(int, Set<Seq<char>>)> {
    s.map_values(|e: ClassEntry| e@)
}

/// The scopes that stay active when a class header at indentation `ind` is
/// met: exactly those of strictly shallower classes, in their old order.
pub open spec fn close_scopes(
    entries: Seq<(int, Set<Seq<char>>)>,
    ind: int,
) -> Seq<(int, Set<Seq<char>>)>
    decreases entries.len(),
{
    if entries.len() == 0 {
        Seq::empty()
    } else {
        let rest = close_scopes(entries.drop_last(), ind);
        if entries.last().0 < ind {
            rest.push(entries.last())
        } else {
            rest
        }
    }
}

/// The scope update a class header performs: close the scopes at its own or
/// a deeper indentation, then record the class's markers if it declares any.
pub open spec fn push_scope(
    entries: Seq<(int, Set<Seq<char>>)>,
    ind: int,
    markers: Set<Seq<char>>,
) -> Seq<(int, Set<Seq<char>>)> {
    if markers.is_empty() {
        close_scopes(entries, ind)
    } else {
        close_scopes(entries, ind).push((ind, markers))
    }
}

/// The active class scopes after the first `n` lines have been scanned.
pub open spec fn entries_at(lls: Seq<Seq<char>>, n: int) -> Seq<(int, Set<Seq<char>>)>
    decreases n,
{
    if n <= 0 {
        Seq::empty()
    } else {
        let prev = entries_at(lls, n - 1);
        let l = lls[n - 1];
        if is_class_line(l) {
            push_scope(prev, indent_of(l), scan_decorators(lls, n - 1))
        } else {
            prev
        }
    }
}

/// Whether a marker set holds any of the excluded markers.
pub open spec fn sets_intersect(s: Set<Seq<char>>, excl: Seq<Seq<char>>) -> bool {
    exists|m: Seq<char>| s.contains(m) && #[trigger] excl.contains(m)
}

/// Whether some active class scope strictly shallower than the function
/// carries an excluded marker.
pub open spec fn class_excluded(
    entries: Seq<(int, Set<Seq<char>>)>,
    ind: int,
    excl: Seq<Seq<char>>,
) -> bool {
    exists|k: int|
        0 <= k < entries.len() && (#[trigger] entries[k]).0 < ind && sets_intersect(
            entries[k].1,
            excl,
        )
}

/// A test function on line `i` is excluded when an enclosing class scope
/// carries an excluded marker, or its own decorators declare one.
pub open spec fn excluded_at(lls: Seq<Seq<char>>, excl: Seq<Seq<char>>, i: int) -> bool {
    class_excluded(entries_at(lls, i), indent_of(lls[i]), excl) || sets_intersect(
        scan_decorators(lls, i),
        excl,
    )
}

/// The names reported among the first `n` lines, in order of appearance.
pub open spec fn report_upto(lls: Seq<Seq<char>>, excl: Seq<Seq<char>>, n: int) -> Seq<Seq<char>>
    decreases n,
{
    if n <= 0 {
        Seq::empty()
    } else {
        let prev = report_upto(lls, excl, n - 1);
        let l = lls[n - 1];
        if is_class_line(l) {
            prev
        } else if is_test_fn_line(l) && !excluded_at(lls, excl, n - 1) {
            prev.push(test_fn_name(l))
        } else {
            prev
        }
    }
}

/// What the analysis returns for a text and an excluded-marker set: the
/// names of the test functions that no excluded marker reaches, in order of
/// appearance.
pub open spec fn spec_analyze(content: Seq<char>, excl: Seq<Seq<char>>) -> Seq<Seq<char>> {
    report_upto(spec_lines(content), excl, spec_lines(content).len() as int)
}

/// The markers a test function at indentation `ind` inherits from the active
/// class scopes: everything declared on a strictly shallower active class.
pub open spec fn inherited_markers(entries: Seq<(int, Set<Seq<char>>)>, ind: int) -> Set<
    Seq<char>,
> {
    Set::new(
        |m: Seq<char>|
            exists|k: int|
                0 <= k < entries.len() && (#[trigger] entries[k]).0 < ind && entries[k].1.contains(
                    m,
                ),
    )
}

/// The effective markers of the test function on line `i`: those its own
/// decorators declare together with those inherited from enclosing class
/// scopes.
pub open spec fn effective_markers(lls: Seq<Seq<char>>, i: int) -> Set<Seq<char>> {
    scan_decorators(lls, i).union(inherited_markers(entries_at(lls, i), indent_of(lls[i])))
}

/// A test function counts as unmarked when none of its effective markers is
/// among the excluded ones.
pub open spec fn unmarked_at(lls: Seq<Seq<char>>, excl: Seq<Seq<char>>, i: int) -> bool {
    effective_markers(lls, i).intersect(excl.to_set()).is_empty()
}

/// The names of the unmarked test functions among the first `n` lines, in
/// order of appearance, each once per defining line.
pub open spec fn unmarked_test_names(lls: Seq<Seq<char>>, excl: Seq<Seq<char>>, n: int) -> Seq<
    Seq<char>,
>
    decreases n,
{
    if n <= 0 {
        Seq::empty()
    } else {
        let prev = unmarked_test_names(lls, excl, n - 1);
        let l = lls[n - 1];
        if !is_class_line(l) && is_test_fn_line(l) && unmarked_at(lls, excl, n - 1) {
            prev.push(test_fn_name(l))
        } else {
            prev
        }
    }
}

/// A line's exclusion decision agrees with the declarative reading: a test
/// function is excluded exactly when one of its effective markers, own or
/// inherited, is among the excluded ones.
pub proof fn lemma_excluded_iff_effective_marker(lls: Seq<Seq<char>>, excl: Seq<Seq<char>>, i: int)
    requires
        0 <= i < lls.len(),
    ensures
        excluded_at(lls, excl, i) <==> !unmarked_at(lls, excl, i),
{
    let entries = entries_at(lls, i);
    let ind = indent_of(lls[i]);
    let eff = effective_markers(lls, i);
    let inter = eff.intersect(excl.to_set());
    if excluded_at(lls, excl, i) {
        if class_excluded(entries, ind, excl) {
            let k = choose|k: int|
                0 <= k < entries.len() && (#[trigger] entries[k]).0 < ind && sets_intersect(
                    entries[k].1,
                    excl,
                );
            let m = choose|m: Seq<char>|
                entries[k].1.contains(m) && #[trigger] excl.contains(m);
            assert(inherited_markers(entries, ind).contains(m));
            assert(excl.to_set().contains(m));
            assert(inter.contains(m));
        } else {
            let m = choose|m: Seq<char>|
                scan_decorators(lls, i).contains(m) && #[trigger] excl.contains(m);
            assert(eff.contains(m));
            assert(excl.to_set().contains(m));
            assert(inter.contains(m));
        }
        assert(!inter.is_empty());
    }
    if !unmarked_at(lls, excl, i) {
        assert(!inter.is_empty());
        let m = choose|m: Seq<char>| inter.contains(m);
        assert(eff.contains(m) && excl.to_set().contains(m));
        assert(excl.contains(m));
        if scan_decorators(lls, i).contains(m) {
            assert(sets_intersect(scan_decorators(lls, i), excl));
        } else {
            assert(inherited_markers(entries, ind).contains(m));
            let k = choose|k: int|
                0 <= k < entries.len() && (#[trigger] entries[k]).0 < ind && entries[k].1.contains(
                    m,
                );
            assert(sets_intersect(entries[k].1, excl));
            assert(class_excluded(entries, ind, excl));
        }
        assert(excluded_at(lls, excl, i));
    }
}

/// The analysis reports exactly the unmarked test functions: every
/// test-function line whose effective markers, own decorators united with
/// those of the enclosing class scopes, avoid the excluded set contributes
/// its name exactly once, in order of appearance, and every other line
/// contributes nothing.
pub proof fn lemma_reports_exactly_the_unmarked(lls: Seq<Seq<char>>, excl: Seq<Seq<char>>, n: int)
    requires
        0 <= n <= lls.len(),
    ensures
        report_upto(lls, excl, n) == unmarked_test_names(lls, excl, n),
    decreases n,
{
    if n > 0 {
        lemma_reports_exactly_the_unmarked(lls, excl, n - 1);
        if !is_class_line(lls[n - 1]) && is_test_fn_line(lls[n - 1]) {
            lemma_excluded_iff_effective_marker(lls, excl, n - 1);
        }
    }
}

/// The analysis of a whole text returns every test function name exactly
/// once if and only if none of its effective markers is excluded.
pub proof fn lemma_analyze_reports_exactly_the_unmarked(content: Seq<char>, excl: Seq<Seq<char>>)
    ensures
        spec_analyze(content, excl) == unmarked_test_names(
            spec_lines(content),
            excl,
            spec_lines(content).len() as int,
        ),
{
    lemma_reports_exactly_the_unmarked(
        spec_lines(content),
        excl,
        spec_lines(content).len() as int,
    );
}

/// Scopes strictly shallower than the closing indentation survive a scope
/// update.
proof fn lemma_close_scopes_keeps(s: Seq<(int, Set<Seq<char>>)>, ind: int, k: int)
    requires
        0 <= k < s.len(),
        s[k].0 < ind,
    ensures
        exists|k2: int|
            0 <= k2 < close_scopes(s, ind).len() && #[trigger] close_scopes(s, ind)[k2] == s[k],
    decreases s.len(),
{
    let closed = close_scopes(s, ind);
    if k == s.len() - 1 {
        assert(s.last() == s[k]);
        assert(closed[closed.len() - 1] == s[k]);
    } else {
        assert(s.drop_last()[k] == s[k]);
        lemma_close_scopes_keeps(s.drop_last(), ind, k);
        let rest = close_scopes(s.drop_last(), ind);
        let k2 = choose|k2: int| 0 <= k2 < rest.len() && #[trigger] rest[k2] == s[k];
        assert(closed[k2] == s[k]);
    }
}

/// A class scope, once opened, stays active through every line up to `n` as
/// long as every later class header is more deeply indented.
proof fn lemma_entry_persists(lls: Seq<Seq<char>>, c: int, n: int)
    requires
        0 <= c < n <= lls.len(),
        is_class_line(lls[c]),
        !scan_decorators(lls, c).is_empty(),
        forall|j: int|
            c < j < n && is_class_line(#[trigger] lls[j]) ==> indent_of(lls[j]) > indent_of(lls[c]),
    ensures
        exists|k: int|
            0 <= k < entries_at(lls, n).len() && #[trigger] entries_at(lls, n)[k] == (
                indent_of(lls[c]),
                scan_decorators(lls, c),
            ),
    decreases n,
{
    let pair = (indent_of(lls[c]), scan_decorators(lls, c));
    if n == c + 1 {
        let now = entries_at(lls, n);
        assert(now == push_scope(entries_at(lls, c), indent_of(lls[c]), scan_decorators(lls, c)));
        assert(now[now.len() - 1] == pair);
    } else {
        lemma_entry_persists(lls, c, n - 1);
        let prev = entries_at(lls, n - 1);
        let k = choose|k: int| 0 <= k < prev.len() && #[trigger] prev[k] == pair;
        if is_class_line(lls[n - 1]) {
            let ind2 = indent_of(lls[n - 1]);
            assert(ind2 > indent_of(lls[c]));
            lemma_close_scopes_keeps(prev, ind2, k);
            let closed = close_scopes(prev, ind2);
            let k2 = choose|k2: int| 0 <= k2 < closed.len() && #[trigger] closed[k2] == pair;
            let now = entries_at(lls, n);
            assert(now[k2] == pair);
        } else {
            assert(entries_at(lls, n)[k] == pair);
        }
    }
}

/// A marker declared on a class header reaches every more deeply indented
/// test function on a later line, as long as no class header at the same or
/// a shallower indentation has closed the scope in between: such a test
/// function is excluded even when it carries no decorator of its own.
pub proof fn lemma_class_marker_excludes_methods(
    lls: Seq<Seq<char>>,
    excl: Seq<Seq<char>>,
    c: int,
    t: int,
)
    requires
        0 <= c < t < lls.len(),
        is_class_line(lls[c]),
        sets_intersect(scan_decorators(lls, c), excl),
        forall|j: int|
            c < j < t && is_class_line(#[trigger] lls[j]) ==> indent_of(lls[j]) > indent_of(lls[c]),
        indent_of(lls[t]) > indent_of(lls[c]),
    ensures
        excluded_at(lls, excl, t),
{
    let m = choose|m: Seq<char>|
        scan_decorators(lls, c).contains(m) && #[trigger] excl.contains(m);
    assert(!scan_decorators(lls, c).is_empty());
    lemma_entry_persists(lls, c, t);
    let entries = entries_at(lls, t);
    let pair = (indent_of(lls[c]), scan_decorators(lls, c));
    let k = choose|k: int| 0 <= k < entries.len() && #[trigger] entries[k] == pair;
    assert(sets_intersect(entries[k].1, excl));
    assert(class_excluded(entries, indent_of(lls[t]), excl));
}

/// Whether any collected marker is among the excluded ones.
pub fn markers_intersect(ms: &Vec<String>, excl: &Vec<String>) -> (b: bool)
    ensures
        b == sets_intersect(ms.deep_view().to_set(), excl.deep_view()),
{
    let mut k: usize = 0;
    while k < ms.len()
        invariant
            0 <= k <= ms@.len(),
            forall|a: int, t: int|
                #![trigger ms.deep_view()[a], excl.deep_view()[t]]
                0 <= a < k && 0 <= t < excl@.len() ==> ms.deep_view()[a] != excl.deep_view()[t],
        decreases ms@.len() - k,
    {
        let mut t: usize = 0;
        while t < excl.len()
            invariant
                0 <= t <= excl@.len(),
                k < ms@.len(),
                forall|tt: int| 0 <= tt < t ==> ms.deep_view()[k as int] != #[trigger] excl.deep_view()[tt],
            decreases excl@.len() - t,
        {
            if ms[k] == excl[t] {
                proof {
                    let m = ms.deep_view()[k as int];
                    assert(ms.deep_view().contains(m));
                    assert(excl.deep_view()[t as int] == m);
                    assert(excl.deep_view().contains(m));
                    assert(sets_intersect(ms.deep_view().to_set(), excl.deep_view()));
                }
                return true;
            }
            t = t + 1;
        }
        k = k + 1;
    }
    proof {
        if sets_intersect(ms.deep_view().to_set(), excl.deep_view()) {
            let m = choose|m: Seq<char>|
                ms.deep_view().to_set().contains(m) && #[trigger] excl.deep_view().contains(m);
            let a = choose|a: int| 0 <= a < ms.deep_view().len() && ms.deep_view()[a] == m;
            let t = choose|t: int| 0 <= t < excl.deep_view().len() && excl.deep_view()[t] == m;
            assert(ms.deep_view()[a] == excl.deep_view()[t]);
            assert(false);
        }
    }
    false
}

/// Whether any active class scope shallower than the function's indentation
/// carries an excluded marker.
fn class_scopes_exclude(entries: &Vec<ClassEntry>, fn_indent: usize, excl: &Vec<String>) -> (b:
    bool)
    ensures
        b == class_excluded(entries_view(entries@), fn_indent as int, excl.deep_view()),
{
    let ghost ev = entries_view(entries@);
    let mut k: usize = 0;
    while k < entries.len()
        invariant
            0 <= k <= entries@.len(),
            ev == entries_view(entries@),
            forall|t: int|
                0 <= t < k ==> !((#[trigger] ev[t]).0 < fn_indent as int && sets_intersect(
                    ev[t].1,
                    excl.deep_view(),
                )),
        decreases entries@.len() - k,
    {
        proof {
            assert(ev[k as int] == entries@[k as int]@);
        }
        if entries[k].indent < fn_indent {
            if markers_intersect(&entries[k].markers, excl) {
                proof {
                    assert((ev[k as int]).0 < fn_indent as int && sets_intersect(
                        ev[k as int].1,
                        excl.deep_view(),
                    ));
                }
                return true;
            }
        }
        k = k + 1;
    }
    proof {
        if class_excluded(ev, fn_indent as int, excl.deep_view()) {
            let k = choose|k: int|
                0 <= k < ev.len() && (#[trigger] ev[k]).0 < fn_indent as int && sets_intersect(
                    ev[k].1,
                    excl.deep_view(),
                );
            assert(false);
        }
    }
    false
}

/// Closing a scope list against one more entry keeps it exactly when its
/// class is strictly shallower.
proof fn lemma_close_scopes_push(s: Seq<(int, Set<Seq<char>>)>, x: (int, Set<Seq<char>>), ind: int)
    ensures
        close_scopes(s.push(x), ind) == if x.0 < ind {
            close_scopes(s, ind).push(x)
        } else {
            close_scopes(s, ind)
        },
{
    assert(s.push(x).drop_last() =~= s);
    assert(s.push(x).last() == x);
}

/// Analyzes the text of one source file: returns the name of every test
/// function none of whose effective markers, own or inherited from an
/// enclosing class, is among the excluded markers.  Names come in order of
/// appearance in the text.
pub fn find_python_test_functions(content: &str, exclude_markers: &Vec<String>) -> (res: Vec<
    String,
>)
    ensures
        res.deep_view() == spec_analyze(content@, exclude_markers.deep_view()),
{
    let n_chars = content.unicode_len();
    let lines = split_lines(content);
    let ghost lls = spec_lines(content@);
    let ghost excl = exclude_markers.deep_view();
    proof {
        assert(content@.len() == n_chars as int);
        assert(total_len(lines.deep_view()) <= u64::MAX as int);
    }
    let nl = lines.len();
    let mut entries: Vec<ClassEntry> = Vec::new();
    let mut out: Vec<String> = Vec::new();
    let mut i: usize = 0;
    proof {
        assert(entries_view(entries@) =~= entries_at(lls, 0));
        assert(out.deep_view() =~= report_upto(lls, excl, 0));
    }
    while i < nl
        invariant
            0 <= i <= nl,
            nl == lines@.len(),
            lls == lines.deep_view(),
            excl == exclude_markers.deep_view(),
            total_len(lls) <= u64::MAX as int,
            entries_view(entries@) == entries_at(lls, i as int),
            out.deep_view() == report_upto(lls, excl, i as int),
        decreases nl - i,
    {
        let line = lines[i];
        proof {
            assert(line@ == lls[i as int]);
        }
        match classify_class_line(line) {
            Some(cind) => {
                let markers = scan_decorators_above(&lines, i);
                let ghost orig = entries@;
                let mut kept: Vec<ClassEntry> = Vec::new();
                proof {
                    assert(entries_view(orig.take(0)) =~= Seq::<(int, Set<Seq<char>>)>::empty());
                    assert(entries_view(kept@) =~= close_scopes(entries_view(orig.take(0)), cind as int));
                }
                while entries.len() > 0
                    invariant
                        entries@.len() <= orig.len(),
                        entries@ == orig.subrange(
                            orig.len() - entries@.len(),
                            orig.len() as int,
                        ),
                        entries_view(kept@) == close_scopes(
                            entries_view(orig.take(orig.len() - entries@.len())),
                            cind as int,
                        ),
                    decreases entries@.len(),
                {
                    let ghost t = orig.len() - entries@.len();
                    let e = entries.remove(0);
                    proof {
                        assert(e == orig[t]);
                        assert(entries@ =~= orig.subrange(t + 1, orig.len() as int));
                        assert(entries_view(orig.take(t + 1)) =~= entries_view(
                            orig.take(t),
                        ).push(orig[t]@));
                        lemma_close_scopes_push(entries_view(orig.take(t)), orig[t]@, cind as int);
                    }
                    let ghost kept_prev = kept@;
                    if e.indent < cind {
                        kept.push(e);
                        proof {
                            assert(entries_view(kept@) =~= entries_view(kept_prev).push(orig[t]@));
                        }
                    }
                }
                proof {
                    assert(orig.take(orig.len() as int) =~= orig);
                }
                let ghost kept_final = entries_view(kept@);
                let ghost mset = markers.deep_view().to_set();
                if markers.len() > 0 {
                    proof {
                        let dv = markers.deep_view();
                        assert(dv[0] == dv[0]);
                        assert(dv.contains(dv[0]));
                        assert(mset.contains(dv[0]));
                        assert(!mset.is_empty());
                    }
                    kept.push(ClassEntry { indent: cind, markers });
                    proof {
                        assert(entries_view(kept@) =~= kept_final.push((cind as int, mset)));
                    }
                } else {
                    proof {
                        assert(markers.deep_view() =~= Seq::<Seq<char>>::empty());
                        assert(mset =~= Set::<Seq<char>>::empty());
                        assert(mset.is_empty());
                    }
                }
                entries = kept;
                proof {
                    assert(entries_view(entries@) == push_scope(
                        entries_view(orig),
                        cind as int,
                        mset,
                    ));
                    assert(entries_view(entries@) == entries_at(lls, i as int + 1));
                    assert(out.deep_view() == report_upto(lls, excl, i as int + 1));
                }
                i = i + 1;
            },
            None => {
                match classify_test_line(line) {
                    Some((find, name)) => {
                        let mut excluded = class_scopes_exclude(&entries, find, exclude_markers);
                        if !excluded {
                            let own = scan_decorators_above(&lines, i);
                            excluded = markers_intersect(&own, exclude_markers);
                        }
                        proof {
                            assert(excluded == excluded_at(lls, excl, i as int));
                        }
                        if !excluded {
                            let ghost prev_out = out.deep_view();
                            out.push(String::from_str(name));
                            proof {
                                assert(out.deep_view() =~= prev_out.push(name@));
                            }
                        }
                        proof {
                            assert(entries_view(entries@) == entries_at(lls, i as int + 1));
                            assert(out.deep_view() == report_upto(lls, excl, i as int + 1));
                        }
                        i = i + 1;
                    },
                    None => {
                        proof {
                            assert(entries_view(entries@) == entries_at(lls, i as int + 1));
                            assert(out.deep_view() == report_upto(lls, excl, i as int + 1));
                        }
                        i = i + 1;
                    },
                }
            },
        }
    }
    out
}

} // verus!
