use cfn_guard::commands::sarif::Messages;
use cfn_guard::commands::validate_junit::{failing_test_case, junit_exit_code, rule_name_for_report};

fn message(text: &str) -> Messages {
    Messages { custom_message: None, error_message: Some(String::from(text)), location: None }
}

#[test]
fn a_qualified_rule_name_loses_its_rules_file() {
    assert_eq!("s3_rule", rule_name_for_report("dir/rules.guard/s3_rule"));
    assert_eq!("b", rule_name_for_report("a.guard/b.guard/c"));
    assert_eq!("plain_rule", rule_name_for_report("plain_rule"));
    assert_eq!("", rule_name_for_report("x.guard/"));
}

#[test]
fn a_failing_case_gathers_every_message_and_the_last_rule_name() {
    let findings = vec![
        (Some(String::from("r.guard/first")), vec![message("one")]),
        (None, vec![message("two")]),
        (Some(String::from("r.guard/silent")), vec![]),
        (Some(String::from("r.guard/last")), vec![message("three"), message("four")]),
    ];
    let case = failing_test_case(findings);
    assert_eq!(Some(String::from("last")), case.name);
    let texts: Vec<String> = case.messages.iter().map(|m| m.error_message.clone().unwrap()).collect();
    assert_eq!(vec!["one", "two", "three", "four"], texts);
    assert!(failing_test_case(vec![]).name.is_none());
}

#[test]
fn the_junit_exit_status_puts_errors_before_failures() {
    assert_eq!(5, junit_exit_code(1, 3));
    assert_eq!(19, junit_exit_code(0, 3));
    assert_eq!(0, junit_exit_code(0, 0));
}
