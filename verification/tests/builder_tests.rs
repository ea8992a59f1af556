use cfn_guard::commands::validate::{OutputFormatType, ShowSummaryType};
use cfn_guard::{CommandBuilder, ParseTreeBuilder, RulegenBuilder, TestBuilder, ValidateBuilder};
use cfn_guard::errors::Error;

#[test]
fn validate_with_errors() {
    // fails cause structured, but show_summary fail
    let cmd = ValidateBuilder::default()
        .data(vec![String::from("resources/validate/data-dir")])
        .rules(vec![String::from("resources/validate/rules-dir")])
        .structured(true)
        .output_format(OutputFormatType::JSON)
        .try_build();
    assert!(cmd.is_err());

    // fails cause structured, but single-line-summary
    let cmd = ValidateBuilder::default()
        .data(vec![String::from("resources/validate/data-dir")])
        .rules(vec![String::from("resources/validate/rules-dir")])
        .structured(true)
        .show_summary(vec![ShowSummaryType::Off])
        .try_build();
    assert!(cmd.is_err());

    // fails cause structured, but verbose
    let cmd = ValidateBuilder::default()
        .data(vec![String::from("resources/validate/data-dir")])
        .rules(vec![String::from("resources/validate/rules-dir")])
        .structured(true)
        .output_format(OutputFormatType::JSON)
        .verbose(true)
        .show_summary(vec![ShowSummaryType::Off])
        .try_build();
    assert!(cmd.is_err());

    // fails cause structured, but print_json
    let cmd = ValidateBuilder::default()
        .data(vec![String::from("resources/validate/data-dir")])
        .rules(vec![String::from("resources/validate/rules-dir")])
        .structured(true)
        .output_format(OutputFormatType::JSON)
        .print_json(true)
        .show_summary(vec![ShowSummaryType::Off])
        .try_build();
    assert!(cmd.is_err());

    // fails cause junit, but not structured
    let cmd = ValidateBuilder::default()
        .data(vec![String::from("resources/validate/data-dir")])
        .rules(vec![String::from("resources/validate/rules-dir")])
        .output_format(OutputFormatType::Junit)
        .show_summary(vec![ShowSummaryType::Off])
        .try_build();

    assert!(cmd.is_err());

    // fails cause no payload, or rules
    let cmd = ValidateBuilder::default()
        .output_format(OutputFormatType::Junit)
        .structured(true)
        .show_summary(vec![ShowSummaryType::Off])
        .try_build();

    assert!(cmd.is_err());

    // fails cause payload, and rules conflict
    let cmd = ValidateBuilder::default()
        .rules(vec![String::from("resources/validate/rules-dir")])
        .payload(true)
        .output_format(OutputFormatType::Junit)
        .structured(true)
        .show_summary(vec![ShowSummaryType::Off])
        .try_build();

    assert!(cmd.is_err());

    // fails cause payload, and data conflict
    let cmd = ValidateBuilder::default()
        .data(vec![String::from("resources/validate/data-dir")])
        .payload(true)
        .output_format(OutputFormatType::Junit)
        .structured(true)
        .show_summary(vec![ShowSummaryType::Off])
        .try_build();

    assert!(cmd.is_err());

    // fails cause last_modified, and alphabetical conflict
    let cmd = ValidateBuilder::default()
        .payload(true)
        .alphabetical(true)
        .last_modified(true)
        .output_format(OutputFormatType::Junit)
        .structured(true)
        .show_summary(vec![ShowSummaryType::Off])
        .try_build();

    assert!(cmd.is_err());
}

#[test]
fn validate_happy_path() {
    let data = vec![String::from("resources/validate/data-dir")];
    let rules = vec![String::from("resources/validate/rules-dir")];
    let cmd = ValidateBuilder::default()
        .verbose(true)
        .output_format(OutputFormatType::JSON)
        .data(data.clone())
        .rules(rules.clone())
        .try_build();

    assert!(cmd.is_ok());

    let cmd = ValidateBuilder::default()
        .verbose(true)
        .show_summary(vec![
            ShowSummaryType::Pass,
            ShowSummaryType::Fail,
            ShowSummaryType::Skip,
        ])
        .output_format(OutputFormatType::JSON)
        .data(data.clone())
        .rules(rules.clone())
        .try_build();

    assert!(cmd.is_ok());

    let cmd = ValidateBuilder::default()
        .verbose(true)
        .output_format(OutputFormatType::JSON)
        .data(data.clone())
        .rules(rules.clone())
        .try_build();

    assert!(cmd.is_ok());

    let cmd = ValidateBuilder::default()
        .data(data.clone())
        .rules(rules.clone())
        .structured(true)
        .output_format(OutputFormatType::JSON)
        .show_summary(vec![ShowSummaryType::Off])
        .try_build();

    assert!(cmd.is_ok());

    let cmd = ValidateBuilder::default()
        .data(data.clone())
        .rules(rules.clone())
        .output_format(OutputFormatType::Junit)
        .structured(true)
        .show_summary(vec![ShowSummaryType::Off])
        .try_build();

    assert!(cmd.is_ok());
}

#[test]
fn build_test_command_happy_path() {
    let data = String::from("resources/validate/data-dir");
    let rules = String::from("resources/validate/rules-dir");
    let cmd = TestBuilder::default()
        .test_data(Option::from(data.clone()))
        .rules(Option::from(rules.clone()))
        .try_build();

    assert!(cmd.is_ok());

    let cmd = TestBuilder::default()
        .directory(Option::from(data.clone()))
        .try_build();
    assert!(cmd.is_ok());

    let cmd = TestBuilder::default()
        .directory(Option::from(data.clone()))
        .alphabetical(true)
        .try_build();

    assert!(cmd.is_ok())
}

#[test]
fn build_test_command_with_errors() {
    let data = String::from("resources/validate/data-dir");
    let rules = String::from("resources/validate/rules-dir");

    // fails cause rules and dir
    let cmd = TestBuilder::default()
        .rules(Option::from(rules.clone()))
        .directory(Option::from(data.clone()))
        .try_build();

    assert!(cmd.is_err());

    // fails cause alphabetical and last_modified
    let cmd = TestBuilder::default()
        .directory(Option::from(data.clone()))
        .last_modified(true)
        .alphabetical(true)
        .try_build();

    assert!(cmd.is_err());
}

#[test]
fn parse_tree_refuses_both_formats() {
    let cmd = ParseTreeBuilder::default()
        .rules(Some(String::from("rules.guard")))
        .print_json(true)
        .print_yaml(true)
        .try_build();
    let err = cmd.err().unwrap();
    assert_eq!(
        "cannot construct a ParseTree command when both print_json and print_yaml are set to true",
        err.message()
    );

    let cmd = ParseTreeBuilder::default()
        .rules(Some(String::from("rules.guard")))
        .output(Some(String::from("out.json")))
        .print_json(true)
        .try_build()
        .unwrap();
    assert_eq!(Some(String::from("rules.guard")), cmd.rules);
    assert_eq!(Some(String::from("out.json")), cmd.output);
    assert!(cmd.print_json);
    assert!(!cmd.print_yaml);
}

#[test]
fn rulegen_builder_keeps_its_settings() {
    let cmd = RulegenBuilder::default()
        .template(String::from("template.yaml"))
        .output(Some(String::from("rules.guard")))
        .try_build()
        .unwrap();
    assert_eq!("template.yaml", cmd.template);
    assert_eq!(Some(String::from("rules.guard")), cmd.output);
}

#[test]
fn a_test_command_needs_something_to_test() {
    let cmd = TestBuilder::default().try_build();
    assert!(matches!(cmd, Err(Error::IllegalArguments(m))
        if m == "unable to construct a test command: rules, test data and directory are all unset"));
    assert!(TestBuilder::default().test_data(Some(String::from("d"))).try_build().is_ok());
}
