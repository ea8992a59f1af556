use cfn_guard::commands::junit::{build_junit_test_cases, JunitReport, TestCaseStatus};
use cfn_guard::commands::reporting::{
    EvaluatedFile, FailedRule, PassedRule, Status, TestCase, TestResult, UncheckedExpectation,
    UnreadableFile,
};

fn case() -> TestCase {
    TestCase {
        name: String::from("case one"),
        error: Some(String::from("could not evaluate")),
        passed_rules: vec![PassedRule { name: String::from("ok_rule"), evaluated: Status::PASS }],
        failed_rules: vec![FailedRule {
            name: String::from("bad_rule"),
            expected: Status::PASS,
            evaluated: vec![Status::FAIL, Status::SKIP],
        }],
        skipped_rules: vec![],
        unchecked_expectations: vec![UncheckedExpectation {
            name: String::from("ghost_rule"),
            reason: String::from("No rule named ghost_rule is in this file, so its expectation was not checked"),
        }],
        time: 12,
    }
}

#[test]
fn junit_cases_come_in_order() {
    let cases = build_junit_test_cases(&case());
    assert_eq!(4, cases.len());
    assert!(matches!(&cases[0].status, TestCaseStatus::Error { error } if error == "could not evaluate"));
    assert_eq!("case one", cases[0].name);
    assert!(matches!(cases[1].status, TestCaseStatus::Pass));
    assert_eq!("ok_rule", cases[1].name);
    match &cases[2].status {
        TestCaseStatus::Fail(f) => {
            assert_eq!(
                Some(String::from("Expected = PASS, Evaluated = [FAIL, SKIP]")),
                f.messages[0].error_message
            );
        }
        _ => panic!("expected a failure"),
    }
    assert_eq!("ghost_rule", cases[3].name);
    assert!(matches!(cases[3].status, TestCaseStatus::Error { .. }));
    for c in &cases {
        assert_eq!(Some(String::from("case one")), c.id);
        assert_eq!(12, c.time);
    }
}

#[test]
fn suite_totals_agree_with_its_cases() {
    let result = TestResult::Evaluated(EvaluatedFile {
        rule_file: String::from("rules.guard"),
        test_cases: vec![case(), case()],
        time: 0,
    });
    let suite = result.build_test_suite();
    assert_eq!("rules.guard", suite.name);
    assert_eq!(8, suite.test_cases.len());
    assert_eq!(4, suite.errors);
    assert_eq!(2, suite.failures);
    assert_eq!(24, suite.time);
    let errors = suite.test_cases.iter().filter(|c| matches!(c.status, TestCaseStatus::Error { .. })).count();
    assert_eq!(suite.errors, errors);
}

#[test]
fn an_unreadable_rules_file_is_one_error() {
    let result = TestResult::Unreadable(UnreadableFile {
        rule_file: String::from("broken.guard"),
        error: String::from("parse error"),
        time: 3,
    });
    let suite = result.build_test_suite();
    assert_eq!(1, suite.test_cases.len());
    assert_eq!(None, suite.test_cases[0].id);
    assert_eq!(1, suite.errors);
    assert_eq!(0, suite.failures);
}

#[test]
fn the_report_adds_up_its_suites() {
    let results = vec![
        TestResult::Unreadable(UnreadableFile {
            rule_file: String::from("broken.guard"),
            error: String::from("parse error"),
            time: 3,
        }),
        TestResult::Evaluated(EvaluatedFile {
            rule_file: String::from("rules.guard"),
            test_cases: vec![case()],
            time: 0,
        }),
    ];
    let report = JunitReport::from_results(&results);
    assert_eq!("cfn-guard test report", report.name);
    assert_eq!(2, report.test_suites.len());
    assert_eq!(5, report.tests);
    assert_eq!(3, report.errors);
    assert_eq!(1, report.failures);
    assert_eq!(15, report.duration);
}
