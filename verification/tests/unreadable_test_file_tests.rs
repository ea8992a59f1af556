use cfn_guard::commands::reporting::{test_file_parse_error, EvaluatedFile, TestResult};
use cfn_guard::commands::TEST_ERROR_STATUS_CODE;

#[test]
fn an_unreadable_test_file_becomes_an_errored_case_and_the_run_errs() {
    let mut result = TestResult::Evaluated(EvaluatedFile {
        rule_file: String::from("rules.guard"),
        test_cases: vec![],
        time: 3,
    });
    let error = test_file_parse_error("dir/bad.yaml", "expected a sequence");
    result.insert_unreadable_test_file("bad.yaml", &error, 2);
    match &result {
        TestResult::Evaluated(file) => {
            assert_eq!(file.time, 5);
            assert_eq!(file.test_cases.len(), 1);
            assert_eq!(file.test_cases[0].name, "bad.yaml");
            assert_eq!(
                file.test_cases[0].error,
                Some(String::from(
                    "Unable to process data in file dir/bad.yaml, Error expected a sequence"
                ))
            );
        }
        TestResult::Unreadable(_) => panic!("the report of the rules file stays evaluated"),
    }
    assert_eq!(result.get_exit_code(), TEST_ERROR_STATUS_CODE);
}
