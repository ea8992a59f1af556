//! The commands of the tool: what each one computes, apart from the files and streams it reads
//! and writes.
use vstd::prelude::*;

pub mod clause_tree;
pub mod completions;
pub mod console;
pub mod console_tree;
pub mod junit;
pub mod junit_xml;
pub mod migrate;
pub mod name_info;
pub mod parse_tree;
pub mod reporting;
pub mod rule_map;
pub mod rule_text;
pub mod rulegen;
pub mod sarif;
pub mod test;
pub mod test_directory;
pub mod test_report;
pub mod test_run;
pub mod tf;
pub mod validate;
pub mod validate_junit;
pub mod wrapper;

verus! {

/// The exit status of a run that did what was asked.
pub const SUCCESS_STATUS_CODE: i32 = 0;
/// The exit status of a test run in which something could not be evaluated.
pub const TEST_ERROR_STATUS_CODE: i32 = 1;
/// The exit status of a run refused because of the input it was given.
pub const ERROR_STATUS_CODE: i32 = 5;
/// The exit status of a test run in which an expectation was not met.
pub const TEST_FAILURE_STATUS_CODE: i32 = 7;
/// The exit status of a validation that found a template not compliant.
pub const FAILURE_STATUS_CODE: i32 = 19;

} // verus!
