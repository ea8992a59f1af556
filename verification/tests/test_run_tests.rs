use cfn_guard::commands::reporting::{EvaluatedFile, TestCase, TestResult, UnreadableFile};
use cfn_guard::commands::test_run::{
    parse_error_message, plain_directory_exit_code, plain_single_exit_code, structured_directory_report,
    structured_single_report, testing_message, untested_message, PlainOutcome, StructuredOutcome,
};
use cfn_guard::commands::{SUCCESS_STATUS_CODE, TEST_ERROR_STATUS_CODE, TEST_FAILURE_STATUS_CODE};

fn unusable(name: &str) -> UnreadableFile {
    UnreadableFile { rule_file: String::from(name), error: String::from("bad"), time: 1 }
}

fn evaluated(name: &str, cases: Vec<TestCase>) -> TestResult {
    TestResult::Evaluated(EvaluatedFile { rule_file: String::from(name), test_cases: cases, time: 2 })
}

#[test]
fn plain_directory_keeps_the_first_test_status() {
    let outcomes = vec![
        PlainOutcome::Untested,
        PlainOutcome::Tested(TEST_FAILURE_STATUS_CODE),
        PlainOutcome::Tested(TEST_ERROR_STATUS_CODE),
    ];
    assert_eq!(Ok(TEST_FAILURE_STATUS_CODE), plain_directory_exit_code(&outcomes));
    assert_eq!(Ok(SUCCESS_STATUS_CODE), plain_directory_exit_code(&vec![]));
}

#[test]
fn plain_directory_marks_an_unparsable_rules_file_as_a_failure() {
    let outcomes = vec![PlainOutcome::Tested(TEST_ERROR_STATUS_CODE), PlainOutcome::Unparsable];
    assert_eq!(Ok(TEST_FAILURE_STATUS_CODE), plain_directory_exit_code(&outcomes));
    let dropped = vec![PlainOutcome::Unparsable, PlainOutcome::NoRules { dropped: true }];
    assert_eq!(Ok(TEST_ERROR_STATUS_CODE), plain_directory_exit_code(&dropped));
    let kept = vec![PlainOutcome::NoRules { dropped: false }];
    assert_eq!(Ok(SUCCESS_STATUS_CODE), plain_directory_exit_code(&kept));
}

#[test]
fn plain_directory_stops_at_the_first_unreadable_rules_file() {
    let outcomes = vec![
        PlainOutcome::Tested(SUCCESS_STATUS_CODE),
        PlainOutcome::Unreadable { error: String::from("first") },
        PlainOutcome::Unreadable { error: String::from("second") },
    ];
    assert_eq!(Err(String::from("first")), plain_directory_exit_code(&outcomes));
}

#[test]
fn plain_single_file_statuses() {
    assert_eq!(TEST_ERROR_STATUS_CODE, plain_single_exit_code(&PlainOutcome::Unparsable));
    assert_eq!(
        TEST_ERROR_STATUS_CODE,
        plain_single_exit_code(&PlainOutcome::Unreadable { error: String::from("e") })
    );
    assert_eq!(TEST_FAILURE_STATUS_CODE, plain_single_exit_code(&PlainOutcome::Tested(7)));
    assert_eq!(SUCCESS_STATUS_CODE, plain_single_exit_code(&PlainOutcome::NoRules { dropped: false }));
    assert_eq!(TEST_ERROR_STATUS_CODE, plain_single_exit_code(&PlainOutcome::NoRules { dropped: true }));
}

#[test]
fn plain_text_lines() {
    assert_eq!(
        "Guard File dir/a.guard did not have any tests associated, skipping.",
        untested_message("dir/a.guard")
    );
    assert_eq!("Testing Guard File dir/a.guard", testing_message("dir/a.guard"));
    assert_eq!("Parse Error on ruleset file oops", parse_error_message("oops"));
}

#[test]
fn structured_directory_lists_reports_in_order_and_takes_the_worst_status() {
    let failing = TestCase {
        name: String::from("c"),
        error: None,
        passed_rules: vec![],
        failed_rules: vec![cfn_guard::commands::reporting::FailedRule {
            name: String::from("r"),
            expected: cfn_guard::commands::reporting::Status::PASS,
            evaluated: vec![cfn_guard::commands::reporting::Status::FAIL],
        }],
        skipped_rules: vec![],
        unchecked_expectations: vec![],
        time: 0,
    };
    let outcomes = vec![
        StructuredOutcome::Untested,
        StructuredOutcome::Tested(evaluated("a.guard", vec![failing])),
        StructuredOutcome::NoRules { dropped: false },
        StructuredOutcome::Unusable(unusable("b.guard")),
    ];
    let (reports, code) = structured_directory_report(outcomes);
    assert_eq!(TEST_ERROR_STATUS_CODE, code);
    assert_eq!(2, reports.len());
    assert!(matches!(&reports[0], TestResult::Evaluated(f) if f.rule_file == "a.guard"));
    assert!(matches!(&reports[1], TestResult::Unreadable(u) if u.rule_file == "b.guard"));

    let clean = vec![StructuredOutcome::Tested(evaluated("a.guard", vec![]))];
    let (reports, code) = structured_directory_report(clean);
    assert_eq!(SUCCESS_STATUS_CODE, code);
    assert_eq!(1, reports.len());
}

#[test]
fn structured_single_file_reports_an_unusable_rules_file_and_succeeds() {
    let (report, code) = structured_single_report(StructuredOutcome::Unusable(unusable("a.guard")));
    assert_eq!(SUCCESS_STATUS_CODE, code);
    assert!(matches!(report, Some(TestResult::Unreadable(_))));
    let (report, code) = structured_single_report(StructuredOutcome::NoRules { dropped: true });
    assert_eq!(TEST_ERROR_STATUS_CODE, code);
    assert!(report.is_none());
}

#[test]
fn the_directory_status_does_not_depend_on_the_walk_order() {
    let failing = || TestCase {
        name: String::from("c"),
        error: None,
        passed_rules: vec![],
        failed_rules: vec![cfn_guard::commands::reporting::FailedRule {
            name: String::from("r"),
            expected: cfn_guard::commands::reporting::Status::PASS,
            evaluated: vec![cfn_guard::commands::reporting::Status::FAIL],
        }],
        skipped_rules: vec![],
        unchecked_expectations: vec![],
        time: 0,
    };
    let one = || {
        vec![
            StructuredOutcome::Tested(evaluated("a.guard", vec![failing()])),
            StructuredOutcome::Tested(evaluated("b.guard", vec![])),
        ]
    };
    let (_, forward) = structured_directory_report(one());
    let mut reversed = one();
    reversed.reverse();
    let (_, backward) = structured_directory_report(reversed);
    assert_eq!(TEST_FAILURE_STATUS_CODE, forward);
    assert_eq!(forward, backward);
}
