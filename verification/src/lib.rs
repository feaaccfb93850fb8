//! A line-oriented scanner for Python test files.
//!
//! The library classifies the lines of a source file as class headers,
//! test-function headers or decorator annotations, tracks class scopes by
//! indentation, and reports every test function that carries none of a
//! configured set of marker annotations, either directly or inherited from
//! an enclosing class.
#![verifier::loop_isolation(false)]

pub mod analyze;
pub mod classify;
pub mod marker;
pub mod scan;
pub mod report;
pub mod text;

pub use analyze::find_python_test_functions;
pub use marker::extract_pytest_marker;
pub use report::collect_unmarked_tests;
pub use report::collect_unmarked_tests_for_packages;
pub use report::SourceFile;
