use cfn_guard::commands::reporting::{
    evaluate_result, get_status_result, no_rules_declared_message, test_file_parse_error,
    unchecked_expectation_message, unmatched_expectation_names, unmatched_test_file_message,
    write_diagnostics, NamedStatus, RecordResult, RecordType, RulesFile, Status, TestCase,
    TestExpectations, TestResult, EvaluatedFile, UnreadableFile, report_expectations_against_no_rules,
};
use cfn_guard::commands::test::{
    claiming_rules_file, get_exit_code, is_test_data_file_name, is_test_file_name,
    not_a_rules_file_message, rules_file_prefix, FileOrder, Test, TestRun,
};
use cfn_guard::commands::validate::OutputFormatType;
use cfn_guard::commands::wrapper::{WriteBuffer, Writer};
use cfn_guard::commands::{SUCCESS_STATUS_CODE, TEST_ERROR_STATUS_CODE, TEST_FAILURE_STATUS_CODE};
use cfn_guard::errors::Error;

fn verdict(name: &str, status: Status) -> Option<RecordType> {
    Some(RecordType::RuleCheck(NamedStatus { name: String::from(name), status, message: None }))
}

#[test]
fn get_status_result_finds_the_expected_verdict() {
    let a = verdict("r", Status::FAIL);
    let b = Some(RecordType::Other);
    let c = verdict("r", Status::PASS);
    let (matched, seen) = get_status_result(Status::PASS, vec![&a, &b, &c]);
    assert_eq!(Some(Status::PASS), matched);
    assert_eq!(vec![Status::FAIL], seen);

    let (matched, seen) = get_status_result(Status::SKIP, vec![&a, &c]);
    assert_eq!(None, matched);
    assert_eq!(vec![Status::FAIL, Status::PASS], seen);

    let s = verdict("r", Status::SKIP);
    let (matched, _) = get_status_result(Status::SKIP, vec![&s, &s]);
    assert_eq!(Some(Status::SKIP), matched);
}

#[test]
fn evaluate_result_reports_a_failed_expectation() {
    let a = verdict("r", Status::FAIL);
    match evaluate_result(vec![&a], Status::PASS, "r") {
        RecordResult::Fail(f) => {
            assert_eq!("r", f.name);
            assert_eq!(Status::PASS, f.expected);
            assert_eq!(vec![Status::FAIL], f.evaluated);
        }
        RecordResult::Pass(_) => panic!("expected a failure"),
    }
    match evaluate_result(vec![&a], Status::FAIL, "r") {
        RecordResult::Pass(p) => assert_eq!(Status::FAIL, p.evaluated),
        RecordResult::Fail(_) => panic!("expected a pass"),
    }
}

#[test]
fn unmatched_expectations_are_named_in_sorted_order() {
    let expectations = vec![
        (String::from("zeta"), String::from("PASS")),
        (String::from("S3_BUCKET_ENCRYPTED"), String::from("FAIL")),
        (String::from("alpha"), String::from("PASS")),
    ];
    let evaluated = vec![String::from("alpha")];
    assert_eq!(
        vec![String::from("S3_BUCKET_ENCRYPTED"), String::from("zeta")],
        unmatched_expectation_names(&expectations, &evaluated)
    );
}

#[test]
fn unchecked_expectation_message_tells_the_two_cases_apart() {
    let rules = RulesFile {
        rule_names: vec![String::from("main")],
        parameterized_rule_names: vec![String::from("param")],
    };
    assert_eq!(
        "param is a parameterized rule, which only gets a verdict where a clause invokes it, so its expectation was not checked",
        unchecked_expectation_message(&rules, "param")
    );
    assert_eq!(
        "No rule named other is in this file, so its expectation was not checked",
        unchecked_expectation_message(&rules, "other")
    );
}

#[test]
fn messages_name_the_file() {
    assert_eq!(
        "empty.guard declares no rules, so the expectation for MAIN was not checked",
        no_rules_declared_message("empty.guard", "MAIN")
    );
    assert_eq!(
        "tests/x_tests.yaml did not match any rules file, so it was not run",
        unmatched_test_file_message("tests/x_tests.yaml")
    );
    match test_file_parse_error("t.yaml", "bad") {
        Error::ParseError(m) => assert_eq!("Unable to process data in file t.yaml, Error bad", m),
        _ => panic!("expected a parse error"),
    }
}

#[test]
fn diagnostics_are_written_one_per_line() {
    let mut writer = Writer::new_with_err(WriteBuffer::Vec(vec![]), WriteBuffer::Vec(vec![]));
    assert!(write_diagnostics(&vec![String::from("a"), String::from("b")], &mut writer).is_ok());
    assert_eq!("a\nb\n", writer.err_from_utf8().unwrap());
}

#[test]
fn exit_codes_accumulate() {
    assert_eq!(TEST_FAILURE_STATUS_CODE, get_exit_code(SUCCESS_STATUS_CODE, TEST_FAILURE_STATUS_CODE));
    assert_eq!(TEST_ERROR_STATUS_CODE, get_exit_code(TEST_ERROR_STATUS_CODE, SUCCESS_STATUS_CODE));
    assert_eq!(TEST_ERROR_STATUS_CODE, get_exit_code(TEST_FAILURE_STATUS_CODE, TEST_ERROR_STATUS_CODE));
    assert_eq!(TEST_FAILURE_STATUS_CODE, get_exit_code(TEST_FAILURE_STATUS_CODE, SUCCESS_STATUS_CODE));
}

#[test]
fn a_test_file_belongs_to_the_longest_stem() {
    let stems = vec![String::from("s3"), String::from("s3_encryption")];
    assert_eq!(Some(1), claiming_rules_file(&stems, "s3_encryption_tests.yml"));
    assert_eq!(Some(0), claiming_rules_file(&stems, "s3_tests.yml"));
    assert_eq!(None, claiming_rules_file(&stems, "ec2_tests.yml"));
}

#[test]
fn file_names_are_classified_by_extension() {
    assert!(is_test_file_name("a.yaml"));
    assert!(is_test_file_name("a.jsn"));
    assert!(!is_test_file_name("a.guard"));
    assert_eq!(Some(String::from("s3")), rules_file_prefix("s3.guard"));
    assert_eq!(Some(String::from("s3")), rules_file_prefix("s3.ruleset"));
    assert_eq!(None, rules_file_prefix("s3.yaml"));
}

#[test]
fn test_case_counts() {
    let case = TestCase::errored(String::from("c"), String::from("boom"), 3);
    assert!(case.has_errors());
    assert!(!case.has_failures());
    assert_eq!(1, case.number_of_errors());
    assert_eq!(0, case.number_of_failures());
}

#[test]
fn test_result_exit_codes() {
    let unreadable = TestResult::Unreadable(UnreadableFile {
        rule_file: String::from("r.guard"),
        error: String::from("bad"),
        time: 0,
    });
    assert_eq!(TEST_ERROR_STATUS_CODE, unreadable.get_exit_code());
    let clean = TestResult::Evaluated(EvaluatedFile {
        rule_file: String::from("r.guard"),
        test_cases: vec![],
        time: 0,
    });
    assert_eq!(SUCCESS_STATUS_CODE, clean.get_exit_code());
    let errored = TestResult::Evaluated(EvaluatedFile {
        rule_file: String::from("r.guard"),
        test_cases: vec![TestCase::errored(String::from("c"), String::from("boom"), 0)],
        time: 0,
    });
    assert_eq!(TEST_ERROR_STATUS_CODE, errored.get_exit_code());
}

#[test]
fn expectations_are_looked_up_by_rule_name() {
    let expectations = TestExpectations {
        rules: vec![
            (String::from("a"), String::from("PASS")),
            (String::from("b"), String::from("FAIL")),
        ],
    };
    assert_eq!(Some(String::from("FAIL")), expectations.get("b"));
    assert_eq!(None, expectations.get("c"));
}

#[test]
fn expectations_against_a_file_with_no_rules_are_reported() {
    let files = vec![
        Ok(vec![TestExpectations {
            rules: vec![
                (String::from("MAIN"), String::from("PASS")),
                (String::from("OTHER"), String::from("FAIL")),
            ],
        }]),
        Err(String::from("bad yaml")),
    ];
    let mut diagnostics: Vec<String> = Vec::new();
    assert!(report_expectations_against_no_rules("empty.guard", &files, &mut diagnostics));
    assert_eq!(
        vec![
            String::from("Unable to process a test file: bad yaml"),
            String::from("empty.guard declares no rules, so the expectation for MAIN was not checked"),
            String::from("empty.guard declares no rules, so the expectation for OTHER was not checked"),
        ],
        diagnostics
    );
    let mut none: Vec<String> = Vec::new();
    assert!(!report_expectations_against_no_rules("empty.guard", &vec![Ok(vec![])], &mut none));
    assert!(none.is_empty());
}

#[test]
fn inserting_a_case_adds_its_time_and_keeps_its_order() {
    let mut result = TestResult::Evaluated(EvaluatedFile {
        rule_file: String::from("rules.guard"),
        test_cases: vec![],
        time: 5,
    });
    result.insert_test_case(TestCase::errored(String::from("first"), String::from("x"), 7));
    result.insert_test_case(TestCase::errored(String::from("second"), String::from("y"), 11));
    match result {
        TestResult::Evaluated(file) => {
            assert_eq!(23, file.time);
            assert_eq!(2, file.test_cases.len());
            assert_eq!(7, file.test_cases[0].time);
            assert_eq!(11, file.test_cases[1].time);
            assert_eq!(String::from("rules.guard"), file.rule_file);
        }
        TestResult::Unreadable(_) => panic!("the report must stay evaluated"),
    }
}

fn settings() -> Test {
    Test {
        rules: Some(String::from("rules.guard")),
        test_data: Some(String::from("tests")),
        directory: None,
        alphabetical: false,
        last_modified: true,
        verbose: false,
        output_format: OutputFormatType::Junit,
    }
}

#[test]
fn a_rules_file_run_takes_its_files_in_the_order_asked() {
    match settings().plan() {
        Ok(TestRun::RulesFile { rules, test_data, order, output_format }) => {
            assert_eq!("rules.guard", rules);
            assert_eq!("tests", test_data);
            assert_eq!(FileOrder::LastModified, order);
            assert_eq!(OutputFormatType::Junit, output_format);
        }
        _ => panic!("expected a rules file run"),
    }
    let alphabetical = Test { alphabetical: true, ..settings() };
    assert!(matches!(
        alphabetical.plan(),
        Ok(TestRun::RulesFile { order: FileOrder::Alphabetical, .. })
    ));
    let walked = Test { last_modified: false, ..settings() };
    assert!(matches!(walked.plan(), Ok(TestRun::RulesFile { order: FileOrder::AsWalked, .. })));
}

#[test]
fn a_directory_run_ignores_the_rules_file_settings() {
    let t = Test { directory: Some(String::from("dir")), rules: None, test_data: None, ..settings() };
    match t.plan() {
        Ok(TestRun::Directory { directory, output_format }) => {
            assert_eq!("dir", directory);
            assert_eq!(OutputFormatType::Junit, output_format);
        }
        _ => panic!("expected a directory run"),
    }
}

#[test]
fn a_run_that_cannot_start_says_why() {
    let verbose = Test { verbose: true, ..settings() };
    assert!(matches!(verbose.plan(), Err(Error::IllegalArguments(m))
        if m == "Cannot provide an output_type of JSON, YAML, or JUnit while the verbose flag is set"));
    let sarif = Test { output_format: OutputFormatType::Sarif, ..settings() };
    assert!(matches!(sarif.plan(), Err(Error::IllegalArguments(m))
        if m == "Cannot provide an output_type of SARIF, SARIF reporter is unsupported."));
    let no_data = Test { test_data: None, ..settings() };
    assert!(matches!(no_data.plan(), Err(Error::IllegalArguments(m))
        if m.starts_with("test requires both a rules file and a test data file")));
}

#[test]
fn test_data_files_are_json_or_yaml_by_extension() {
    for name in ["a.json", "a.yaml", "a.JSON", "a.YAML", "a.yml", "a.jsn"] {
        assert!(is_test_data_file_name(name), "{name}");
    }
    for name in ["a.YML", "a.txt", "json", "a.guard"] {
        assert!(!is_test_data_file_name(name), "{name}");
    }
}

#[test]
fn a_directory_given_as_the_rules_file_is_named() {
    assert_eq!(
        "`rules` is not a rules file. --rules-file takes one file; use --dir to walk a directory of rules files.",
        not_a_rules_file_message("rules")
    );
}
