use unmarked_tests::extract_pytest_marker;
use unmarked_tests::find_python_test_functions;

fn markers(names: &[&str]) -> Vec<String> {
    names.iter().map(|s| s.to_string()).collect()
}

#[test]
fn test_extract_pytest_marker() {
    assert_eq!(
        extract_pytest_marker("@pytest.mark.unit"),
        Some("unit".to_string())
    );
    assert_eq!(
        extract_pytest_marker("@pytest.mark.slow"),
        Some("slow".to_string())
    );
    assert_eq!(extract_pytest_marker("@unit"), Some("unit".to_string()));
    assert_eq!(extract_pytest_marker("@skip"), Some("skip".to_string()));
    assert_eq!(
        extract_pytest_marker("@pytest.mark.parametrize('x', [1, 2])"),
        Some("parametrize".to_string())
    );
}

#[test]
fn test_find_python_test_functions() {
    let content = r#"
import pytest

@pytest.mark.unit
def test_marked_function():
    pass

def test_unmarked_function():
    pass

@pytest.mark.skip
def test_skipped_function():
    pass

def test_another_unmarked():
    pass
"#;

    let exclude_markers = markers(&["unit", "skip"]);
    let result = find_python_test_functions(content, &exclude_markers);

    assert_eq!(
        result,
        vec!["test_unmarked_function", "test_another_unmarked"]
    );
}

#[test]
fn test_multiline_decorator() {
    let content = r#"
import pytest

@pytest.mark.unit
@pytest.mark.parametrize(
    "arg1, arg2",
    [
        pytest.param("a", "b"),
        pytest.param("c", "d"),
    ],
)
def test_with_multiline_decorator():
    pass

def test_unmarked():
    pass
"#;

    let exclude_markers = markers(&["unit"]);
    let result = find_python_test_functions(content, &exclude_markers);

    assert_eq!(result, vec!["test_unmarked"]);
}

#[test]
fn test_class_methods() {
    let content = r#"
import pytest

class TestExample:
    @pytest.mark.unit
    def test_marked_method(self):
        pass

    def test_unmarked_method(self):
        pass

    @pytest.mark.integration
    def test_another_marked_method(self):
        pass

def test_function_level():
    pass

class TestAnother:
    def test_unmarked_in_class(self):
        pass
"#;

    let exclude_markers = markers(&["unit", "integration"]);
    let result = find_python_test_functions(content, &exclude_markers);

    assert_eq!(
        result,
        vec![
            "test_unmarked_method",
            "test_function_level",
            "test_unmarked_in_class"
        ]
    );
}

#[test]
fn test_class_level_markers() {
    let content = r#"
import pytest

@pytest.mark.unit
class TestMarkedClass:
    def test_method_in_marked_class(self):
        pass

    @pytest.mark.integration
    def test_method_with_own_marker(self):
        pass

class TestUnmarkedClass:
    def test_method_in_unmarked_class(self):
        pass

def test_function_level():
    pass
"#;

    let exclude_markers = markers(&["unit", "integration"]);
    let result = find_python_test_functions(content, &exclude_markers);

    assert_eq!(
        result,
        vec!["test_method_in_unmarked_class", "test_function_level"]
    );
}

#[test]
fn test_unmarked_functions_all_reported_in_order() {
    let content = "def test_unmarked_function():\n    pass\n\ndef test_another_unmarked():\n    pass\n";
    let exclude_markers = markers(&["unit", "integration", "component", "skip", "slow"]);
    let result = find_python_test_functions(content, &exclude_markers);
    assert_eq!(
        result,
        vec!["test_unmarked_function", "test_another_unmarked"]
    );
}

#[test]
fn test_marked_function_absent() {
    let content = "@pytest.mark.unit\ndef test_marked_function():\n    pass\n";
    let exclude_markers = markers(&["unit"]);
    let result = find_python_test_functions(content, &exclude_markers);
    assert!(result.is_empty());
}

#[test]
fn test_sibling_method_unaffected_by_marked_method() {
    let content = r#"
class TestExample:
    @pytest.mark.unit
    def test_marked_method(self):
        pass

    def test_unmarked_method(self):
        pass
"#;
    let exclude_markers = markers(&["unit"]);
    let result = find_python_test_functions(content, &exclude_markers);
    assert_eq!(result, vec!["test_unmarked_method"]);
}

#[test]
fn test_class_marker_reaches_undecorated_method() {
    let content = r#"
@pytest.mark.unit
class TestMarkedClass:
    def test_method_in_marked_class(self):
        pass
"#;
    let exclude_markers = markers(&["unit"]);
    let result = find_python_test_functions(content, &exclude_markers);
    assert!(result.is_empty());
}

#[test]
fn test_analysis_is_idempotent() {
    let content = r#"
@pytest.mark.slow
def test_slow_one():
    pass

def test_fast_one():
    pass

class TestThings:
    def test_in_class(self):
        pass
"#;
    let exclude_markers = markers(&["slow"]);
    let first = find_python_test_functions(content, &exclude_markers);
    let second = find_python_test_functions(content, &exclude_markers);
    assert_eq!(first, second);
    assert_eq!(first, vec!["test_fast_one", "test_in_class"]);
}

#[test]
fn test_both_annotation_styles_extract_same_marker() {
    let namespaced = extract_pytest_marker("@pytest.mark.component");
    let bare = extract_pytest_marker("@component");
    assert_eq!(namespaced, Some("component".to_string()));
    assert_eq!(namespaced, bare);
}

#[test]
fn test_argument_identifier_not_taken_for_marker() {
    // "unit" appears only inside the argument list of a multi-line call:
    // the function must still be reported.
    let content = r#"
@pytest.mark.parametrize(
    "x",
    [unit, 2],
)
def test_parametrized():
    pass
"#;
    let exclude_markers = markers(&["unit"]);
    let result = find_python_test_functions(content, &exclude_markers);
    assert_eq!(result, vec!["test_parametrized"]);
}

#[test]
fn test_extract_marker_edge_cases() {
    // no identifier directly after the sigil: the namespace words themselves
    // are then the first identifier run found
    assert_eq!(
        extract_pytest_marker("@pytest.mark."),
        Some("pytest".to_string())
    );
    // a space after the sigil: no marker at all
    assert_eq!(extract_pytest_marker("@ unit"), None);
    assert_eq!(extract_pytest_marker(""), None);
    // the sigil need not start the line
    assert_eq!(
        extract_pytest_marker("x = fn(a) @unit"),
        Some("unit".to_string())
    );
}

#[test]
fn test_empty_content_yields_nothing() {
    let exclude_markers = markers(&["unit"]);
    let result = find_python_test_functions("", &exclude_markers);
    assert!(result.is_empty());
}

#[test]
fn test_nested_class_scope_closes_at_shallower_indent() {
    // The inner class is marked, but the scope closes when the next class at
    // a shallower indentation appears: the later method is reported.
    let content = r#"
class TestOuter:
    @pytest.mark.unit
    class TestInner:
        def test_inner_method(self):
            pass

class TestLater:
    def test_later_method(self):
        pass
"#;
    let exclude_markers = markers(&["unit"]);
    let result = find_python_test_functions(content, &exclude_markers);
    assert_eq!(result, vec!["test_later_method"]);
}

#[test]
fn test_scan_stops_at_ordinary_code() {
    // The decorator above the assignment belongs to the assignment's span,
    // not to the function: the balanced ordinary line ends the backward scan.
    let content = "@slow\nx = 1\ndef test_c():\n    pass\n";
    let exclude_markers: Vec<String> = vec!["slow".to_string()];
    let result = find_python_test_functions(content, &exclude_markers);
    assert_eq!(result, vec!["test_c"]);
}

#[test]
fn test_unclosed_call_does_not_end_decorator_block() {
    // The call on the first line stays open across the decorator, so the
    // scan walks past it and still finds the marker above.
    let content = "@unit\nvalues = make(\n@skip\ndef test_d():\n    pass\n";
    let exclude_markers: Vec<String> = vec!["unit".to_string()];
    let result = find_python_test_functions(content, &exclude_markers);
    assert!(result.is_empty());
}
