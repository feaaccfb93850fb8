use unmarked_tests::collect_unmarked_tests;
use unmarked_tests::collect_unmarked_tests_for_packages;
use unmarked_tests::SourceFile;

fn markers(names: &[&str]) -> Vec<String> {
    names.iter().map(|s| s.to_string()).collect()
}

fn file(path: &str, content: &str) -> SourceFile {
    SourceFile {
        path: path.to_string(),
        content: content.to_string(),
    }
}

#[test]
fn test_collect_qualifies_names_with_paths() {
    let files = vec![
        file(
            "tests/test_a.py",
            "def test_one():\n    pass\n\n@pytest.mark.unit\ndef test_two():\n    pass\n",
        ),
        file("tests/test_b.py", "def test_three():\n    pass\n"),
    ];
    let exclude_markers = markers(&["unit"]);
    let result = collect_unmarked_tests(&files, &exclude_markers);
    assert_eq!(
        result,
        vec!["tests/test_a.py::test_one", "tests/test_b.py::test_three"]
    );
}

#[test]
fn test_collect_empty_file_list() {
    let files: Vec<SourceFile> = Vec::new();
    let exclude_markers = markers(&["unit"]);
    let result = collect_unmarked_tests(&files, &exclude_markers);
    assert!(result.is_empty());
}

#[test]
fn test_collect_for_packages_keeps_package_order() {
    let pkg_a = vec![file("a/test_x.py", "def test_x():\n    pass\n")];
    let pkg_b = vec![
        file("b/test_y.py", "def test_y():\n    pass\n"),
        file(
            "b/test_z.py",
            "@pytest.mark.slow\ndef test_slow():\n    pass\ndef test_z():\n    pass\n",
        ),
    ];
    let packages = vec![pkg_a, pkg_b];
    let exclude_markers = markers(&["slow"]);
    let result = collect_unmarked_tests_for_packages(&packages, &exclude_markers);
    assert_eq!(
        result,
        vec![
            "a/test_x.py::test_x",
            "b/test_y.py::test_y",
            "b/test_z.py::test_z"
        ]
    );
}
