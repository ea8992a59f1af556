use cfn_guard::commands::reporting::{NamedStatus, RecordType, Status, UncheckedExpectation};
use cfn_guard::commands::test_report::{case_report, decide_case, get_by_rules, structured_case};

fn verdict(name: &str, status: Status) -> Option<RecordType> {
    Some(RecordType::RuleCheck(NamedStatus { name: String::from(name), status, message: None }))
}

#[test]
fn records_are_grouped_by_rule_in_name_order() {
    let records = vec![
        verdict("zeta", Status::PASS),
        Some(RecordType::Other),
        verdict("alpha", Status::FAIL),
        verdict("zeta", Status::SKIP),
        None,
    ];
    let groups = get_by_rules(&records);
    let names: Vec<&str> = groups.iter().map(|(n, _)| n.as_str()).collect();
    assert_eq!(vec!["alpha", "zeta"], names);
    assert_eq!(1, groups[0].1.len());
    assert_eq!(2, groups[1].1.len());
}

#[test]
fn each_rule_is_compared_with_its_expectation() {
    let records = vec![
        verdict("met", Status::PASS),
        verdict("missed", Status::FAIL),
        verdict("missed", Status::SKIP),
        verdict("unset", Status::PASS),
    ];
    let expectations = vec![
        (String::from("met"), Status::PASS),
        (String::from("missed"), Status::PASS),
    ];
    let decision = decide_case(get_by_rules(&records), &expectations);
    assert_eq!(vec![String::from("met: Expected = PASS")], decision.passed);
    assert_eq!(vec![String::from("missed: Expected = PASS, Evaluated = [FAIL, SKIP]")], decision.failed);
    assert_eq!(vec![String::from("  No Test expectation was set for Rule unset")], decision.unset);
    assert_eq!(
        "  No Test expectation was set for Rule unset\n  FAIL Rules:\n    missed: Expected = PASS, Evaluated = [FAIL, SKIP]\n  PASS Rules:\n    met: Expected = PASS\n\n",
        case_report(&decision)
    );
}

#[test]
fn an_empty_case_report_is_a_blank_line() {
    let decision = decide_case(vec![], &vec![]);
    assert_eq!("\n", case_report(&decision));
}

#[test]
fn a_structured_case_sorts_its_rules_by_how_they_met_expectations() {
    let records = vec![
        verdict("met", Status::PASS),
        verdict("missed", Status::FAIL),
        verdict("unset", Status::SKIP),
    ];
    let expectations = vec![
        (String::from("met"), Ok(Status::PASS)),
        (String::from("missed"), Ok(Status::PASS)),
    ];
    let unchecked = vec![UncheckedExpectation {
        name: String::from("ghost"),
        reason: String::from("no such rule"),
    }];
    let case = structured_case(
        String::from("case"),
        Some(String::from("eval error")),
        get_by_rules(&records),
        &expectations,
        unchecked,
        9,
    );
    assert_eq!("case", case.name);
    assert_eq!(Some(String::from("eval error")), case.error);
    assert_eq!(9, case.time);
    assert_eq!(1, case.passed_rules.len());
    assert_eq!("met", case.passed_rules[0].name);
    assert_eq!(Status::PASS, case.passed_rules[0].evaluated);
    assert_eq!(1, case.failed_rules.len());
    assert_eq!("missed", case.failed_rules[0].name);
    assert_eq!(vec![Status::FAIL], case.failed_rules[0].evaluated);
    assert_eq!(1, case.skipped_rules.len());
    assert_eq!("unset", case.skipped_rules[0].name);
    assert_eq!(1, case.unchecked_expectations.len());
}

#[test]
fn an_expectation_that_is_not_a_verdict_ends_the_case_with_its_reason() {
    let records = vec![verdict("alpha", Status::PASS), verdict("beta", Status::PASS)];
    let expectations = vec![
        (String::from("beta"), Err(String::from("beta is not a status"))),
        (String::from("alpha"), Err(String::from("alpha is not a status"))),
    ];
    let case = structured_case(
        String::from("case"),
        None,
        get_by_rules(&records),
        &expectations,
        vec![],
        3,
    );
    assert_eq!(Some(String::from("alpha is not a status")), case.error);
    assert!(case.passed_rules.is_empty());
    assert!(case.failed_rules.is_empty());
    assert!(case.skipped_rules.is_empty());
    assert_eq!(3, case.time);
}
