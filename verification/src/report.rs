//! Reports over whole files and package lists: each unmarked test is named
//! by its file path and function name, joined by a double colon.
use vstd::prelude::*;

use crate::analyze::find_python_test_functions;
use crate::analyze::spec_analyze;

verus! {

/// One source file handed to the analysis: its path, used in the report, and
/// its text.
pub struct SourceFile {
    pub path: String,
    pub content: String,
}

impl View for SourceFile {
    type V = (Seq<char>, Seq<char>);

    open spec fn view(&self) -> (Seq<char>, Seq<char>) {
        (self.path@, self.content@)
    }
}

impl DeepView for SourceFile {
    type V = (Seq<char>, Seq<char>);

    open spec fn deep_view(&self) -> (Seq<char>, Seq<char>) {
        self@
    }
}

/// A reported location: the file's path and the function's name joined by a
/// double colon.
pub open spec fn qualified_name(path: Seq<char>, name: Seq<char>) -> Seq<char> {
    path + "::"@ + name
}

/// The report for one file: the qualified location of each of its unmarked
/// tests, in order of appearance.
pub open spec fn spec_collect_file(f: (Seq<char>, Seq<char>), excl: Seq<Seq<char>>) -> Seq<
    Seq<char>,
> {
    spec_analyze(f.1, excl).map_values(|name: Seq<char>| qualified_name(f.0, name))
}

/// The report for a list of files, in file order.
pub open spec fn spec_collect(files: Seq<(Seq<char>, Seq<char>)>, excl: Seq<Seq<char>>) -> Seq<
    Seq<char>,
>
    decreases files.len(),
{
    if files.len() == 0 {
        Seq::empty()
    } else {
        spec_collect(files.drop_last(), excl) + spec_collect_file(files.last(), excl)
    }
}

/// The report for a list of packages, each a list of files, in package
/// order.
pub open spec fn spec_collect_packages(
    ps: Seq<Seq<(Seq<char>, Seq<char>)>>,
    excl: Seq<Seq<char>>,
) -> Seq<Seq<char>>
    decreases ps.len(),
{
    if ps.len() == 0 {
        Seq::empty()
    } else {
        spec_collect_packages(ps.drop_last(), excl) + spec_collect(ps.last(), excl)
    }
}

/// Builds the qualified location of one reported test.
fn qualify(path: &String, name: &str) -> (res: String)
    ensures
        res@ == qualified_name(path@, name@),
{
    let mut q = path.clone();
    q.append("::");
    q.append(name);
    proof {
        assert(q@ =~= qualified_name(path@, name@));
    }
    q
}

/// Collects the unmarked tests of a list of source files: for each file, in
/// the given order, the qualified location of each test function that
/// carries none of the excluded markers.
pub fn collect_unmarked_tests(files: &Vec<SourceFile>, exclude_markers: &Vec<String>) -> (res: Vec<
    String,
>)
    ensures
        res.deep_view() == spec_collect(files.deep_view(), exclude_markers.deep_view()),
{
    let ghost fdv = files.deep_view();
    let ghost excl = exclude_markers.deep_view();
    let mut out: Vec<String> = Vec::new();
    let mut k: usize = 0;
    proof {
        assert(out.deep_view() =~= spec_collect(fdv.take(0), excl));
    }
    while k < files.len()
        invariant
            0 <= k <= files@.len(),
            fdv == files.deep_view(),
            excl == exclude_markers.deep_view(),
            out.deep_view() == spec_collect(fdv.take(k as int), excl),
        decreases files@.len() - k,
    {
        proof {
            assert(fdv[k as int] == files@[k as int]@);
        }
        let names = find_python_test_functions(files[k].content.as_str(), exclude_markers);
        let ghost file_report = spec_collect_file(fdv[k as int], excl);
        let ghost base = out.deep_view();
        let mut t: usize = 0;
        proof {
            assert(base + file_report.take(0) =~= base);
        }
        while t < names.len()
            invariant
                0 <= t <= names@.len(),
                fdv == files.deep_view(),
                excl == exclude_markers.deep_view(),
                k < files@.len(),
                names.deep_view() == spec_analyze(fdv[k as int].1, excl),
                file_report == spec_collect_file(fdv[k as int], excl),
                out.deep_view() == base + file_report.take(t as int),
            decreases names@.len() - t,
        {
            let q = qualify(&files[k].path, names[t].as_str());
            let ghost prev = out.deep_view();
            out.push(q);
            proof {
                assert(out.deep_view() =~= prev.push(q@));
                assert(file_report[t as int] == qualified_name(fdv[k as int].0, names.deep_view()[t as int]));
                assert(out.deep_view() =~= base + file_report.take(t as int + 1));
            }
            t = t + 1;
        }
        proof {
            assert(file_report.take(names@.len() as int) =~= file_report);
            assert(fdv.take(k as int + 1).drop_last() =~= fdv.take(k as int));
            assert(fdv.take(k as int + 1).last() == fdv[k as int]);
            assert(out.deep_view() == spec_collect(fdv.take(k as int + 1), excl));
        }
        k = k + 1;
    }
    proof {
        assert(fdv.take(files@.len() as int) =~= fdv);
    }
    out
}

/// Collects the unmarked tests of several packages, each given as its own
/// list of source files, in package order.
pub fn collect_unmarked_tests_for_packages(
    packages: &Vec<Vec<SourceFile>>,
    exclude_markers: &Vec<String>,
) -> (res: Vec<String>)
    ensures
        res.deep_view() == spec_collect_packages(packages.deep_view(), exclude_markers.deep_view()),
{
    let ghost pdv = packages.deep_view();
    let ghost excl = exclude_markers.deep_view();
    let mut out: Vec<String> = Vec::new();
    let mut k: usize = 0;
    proof {
        assert(out.deep_view() =~= spec_collect_packages(pdv.take(0), excl));
    }
    while k < packages.len()
        invariant
            0 <= k <= packages@.len(),
            pdv == packages.deep_view(),
            excl == exclude_markers.deep_view(),
            out.deep_view() == spec_collect_packages(pdv.take(k as int), excl),
        decreases packages@.len() - k,
    {
        proof {
            assert(pdv[k as int] == packages@[k as int].deep_view());
        }
        let part = collect_unmarked_tests(&packages[k], exclude_markers);
        let ghost base = out.deep_view();
        let ghost part_dv = part.deep_view();
        let mut t: usize = 0;
        proof {
            assert(base + part_dv.take(0) =~= base);
        }
        while t < part.len()
            invariant
                0 <= t <= part@.len(),
                part_dv == part.deep_view(),
                out.deep_view() == base + part_dv.take(t as int),
            decreases part@.len() - t,
        {
            let ghost prev = out.deep_view();
            let q = part[t].clone();
            out.push(q);
            proof {
                assert(q@ == part_dv[t as int]);
                assert(out.deep_view() =~= prev.push(q@));
                assert(out.deep_view() =~= base + part_dv.take(t as int + 1));
            }
            t = t + 1;
        }
        proof {
            assert(part_dv.take(part@.len() as int) =~= part_dv);
            assert(pdv.take(k as int + 1).drop_last() =~= pdv.take(k as int));
            assert(pdv.take(k as int + 1).last() == pdv[k as int]);
            assert(out.deep_view() == spec_collect_packages(pdv.take(k as int + 1), excl));
        }
        k = k + 1;
    }
    proof {
        assert(pdv.take(packages@.len() as int) =~= pdv);
    }
    out
}

} // verus!
