use cfn_guard::commands::junit::{
    FailingTestCase, JunitReport, JunitTestCase, TestCaseStatus, TestSuite,
};
use cfn_guard::commands::junit_xml::{junit_events, test_case_events, XmlEvent};
use cfn_guard::commands::sarif::Messages;

/// The events as text, one per line, to compare against what a junit document holds.
fn show(events: &[XmlEvent]) -> Vec<String> {
    events
        .iter()
        .map(|e| match e {
            XmlEvent::Decl { version, encoding } => format!("decl {version} {encoding}"),
            XmlEvent::Start { name, attributes } => format!("<{name}{}>", attrs(attributes)),
            XmlEvent::Empty { name, attributes } => format!("<{name}{}/>", attrs(attributes)),
            XmlEvent::End { name } => format!("</{name}>"),
            XmlEvent::Text(t) => format!("text {t:?}"),
            XmlEvent::Eof => String::from("eof"),
            XmlEvent::Indent => String::from("indent"),
        })
        .collect()
}

fn attrs(attributes: &[(String, String)]) -> String {
    attributes.iter().map(|(k, v)| format!(" {k}={v:?}")).collect()
}

fn case(status: TestCaseStatus) -> JunitTestCase {
    JunitTestCase { id: Some(String::from("spec")), name: String::from("rule_a"), time: 7, status }
}

fn events_of(c: &JunitTestCase) -> Vec<String> {
    let mut out = Vec::new();
    test_case_events(c, &mut out);
    show(&out)
}

#[test]
fn a_passing_case_is_an_empty_element_with_its_status() {
    assert_eq!(
        vec![r#"<testcase id="spec" name="rule_a" time="7" status="pass"/>"#],
        events_of(&case(TestCaseStatus::Pass))
    );
}

#[test]
fn a_case_without_an_id_has_no_id_attribute() {
    let c = JunitTestCase { id: None, name: String::from("r"), time: 0, status: TestCaseStatus::Pass };
    assert_eq!(vec![r#"<testcase name="r" time="0" status="pass"/>"#], events_of(&c));
}

#[test]
fn a_skip_without_reasons_stays_empty_and_one_with_reasons_lists_them() {
    assert_eq!(
        vec![r#"<testcase id="spec" name="rule_a" time="7" status="skip"/>"#],
        events_of(&case(TestCaseStatus::Skip { reasons: vec![] }))
    );
    assert_eq!(
        vec![
            r#"<testcase id="spec" name="rule_a" time="7" status="skip">"#,
            "<skipped>",
            r#"text "a: nothing to check\nb: no AWS::S3::Bucket""#,
            "</skipped>",
            "</testcase>",
        ],
        events_of(&case(TestCaseStatus::Skip {
            reasons: vec![
                String::from("a: nothing to check"),
                String::from("b: no AWS::S3::Bucket"),
            ],
        }))
    );
}

#[test]
fn an_error_holds_an_error_element() {
    assert_eq!(
        vec![
            r#"<testcase id="spec" name="rule_a" time="7" status="error">"#,
            "<error>",
            r#"text "could not evaluate""#,
            "</error>",
            "</testcase>",
        ],
        events_of(&case(TestCaseStatus::Error { error: String::from("could not evaluate") }))
    );
}

#[test]
fn a_failure_joins_its_non_empty_messages_one_a_line() {
    let failure = FailingTestCase {
        name: Some(String::from("rule_a")),
        messages: vec![
            Messages {
                custom_message: Some(String::new()),
                error_message: Some(String::from("first")),
                location: None,
            },
            Messages {
                custom_message: Some(String::from("must be Enabled")),
                error_message: Some(String::from("Check was not compliant")),
                location: None,
            },
            Messages { custom_message: None, error_message: None, location: None },
        ],
    };
    assert_eq!(
        vec![
            r#"<testcase id="spec" name="rule_a" time="7">"#,
            r#"<failure message="rule_a">"#,
            r#"text "first\nmust be Enabled\nCheck was not compliant""#,
            "</failure>",
            "</testcase>",
        ],
        events_of(&case(TestCaseStatus::Fail(failure)))
    );
}

#[test]
fn a_failure_with_only_empty_messages_is_an_empty_failure_element() {
    let failure = FailingTestCase {
        name: None,
        messages: vec![Messages {
            custom_message: Some(String::new()),
            error_message: Some(String::new()),
            location: None,
        }],
    };
    assert_eq!(
        vec![r#"<testcase id="spec" name="rule_a" time="7">"#, "<failure/>", "</testcase>"],
        events_of(&case(TestCaseStatus::Fail(failure)))
    );
}

#[test]
fn a_report_is_a_declaration_and_its_suites_inside_testsuites() {
    let report = JunitReport {
        name: String::from("cfn-guard test report"),
        test_suites: vec![TestSuite::new(
            String::from("rules.guard"),
            vec![case(TestCaseStatus::Pass)],
            7,
            0,
            0,
        )],
        failures: 0,
        errors: 0,
        tests: 1,
        duration: 340282366920938463463374607431768211455,
    };
    assert_eq!(
        vec![
            "decl 1.0 UTF-8",
            r#"<testsuites name="cfn-guard test report" tests="1" failures="0" errors="0" time="340282366920938463463374607431768211455">"#,
            r#"<testsuite name="rules.guard" errors="0" failures="0" time="7">"#,
            r#"<testcase id="spec" name="rule_a" time="7" status="pass"/>"#,
            "</testsuite>",
            "</testsuites>",
            "eof",
            "indent",
        ],
        show(&junit_events(&report))
    );
}

#[test]
fn an_empty_report_still_has_its_testsuites_element() {
    let report = JunitReport {
        name: String::from("empty"),
        test_suites: vec![],
        failures: 0,
        errors: 0,
        tests: 0,
        duration: 0,
    };
    assert_eq!(
        vec![
            "decl 1.0 UTF-8",
            r#"<testsuites name="empty" tests="0" failures="0" errors="0" time="0">"#,
            "</testsuites>",
            "eof",
            "indent",
        ],
        show(&junit_events(&report))
    );
}

#[test]
fn every_element_of_a_report_is_closed_innermost_first() {
    let failing = FailingTestCase {
        name: Some(String::from("rule_b")),
        messages: vec![Messages {
            custom_message: Some(String::from("why")),
            error_message: None,
            location: None,
        }],
    };
    let report = JunitReport {
        name: String::from("r"),
        test_suites: vec![
            TestSuite::new(
                String::from("one.guard"),
                vec![
                    case(TestCaseStatus::Fail(failing)),
                    case(TestCaseStatus::Error { error: String::from("e") }),
                    case(TestCaseStatus::Skip { reasons: vec![String::from("x: y")] }),
                ],
                3,
                1,
                1,
            ),
            TestSuite::new(String::from("two.guard"), vec![], 0, 0, 0),
        ],
        failures: 1,
        errors: 1,
        tests: 3,
        duration: 3,
    };
    let mut open: Vec<String> = Vec::new();
    for e in junit_events(&report) {
        match e {
            XmlEvent::Start { name, .. } => open.push(name),
            XmlEvent::End { name } => assert_eq!(Some(name), open.pop()),
            _ => {}
        }
    }
    assert!(open.is_empty());
}

#[test]
fn failure_text_splits_back_into_its_messages() {
    let failing = FailingTestCase {
        name: None,
        messages: vec![
            Messages {
                custom_message: Some(String::from("one")),
                error_message: Some(String::from("two")),
                location: None,
            },
            Messages { custom_message: None, error_message: Some(String::from("three")), location: None },
        ],
    };
    let mut out = Vec::new();
    test_case_events(&case(TestCaseStatus::Fail(failing)), &mut out);
    match &out[2] {
        XmlEvent::Text(t) => assert_eq!(vec!["one", "two", "three"], t.split('\n').collect::<Vec<_>>()),
        _ => panic!("the failure must hold its text"),
    }
}
