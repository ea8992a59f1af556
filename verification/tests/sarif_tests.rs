use cfn_guard::commands::reporting::Status;
use cfn_guard::commands::sarif::{
    extract_rule_id, generate_sarif_locations, handle_messages, sanitize_path, ClauseFailure,
    FileReport, Location, Messages, RuleFileError, SarifDriver, SarifReport, SarifResults,
};

fn driver() -> SarifDriver {
    SarifDriver::describing("cfn-guard", "3.1.2", "https://github.com/aws-cloudformation/cloudformation-guard", "Guard")
}

fn failure(rule: Option<&str>, error: &str, at: Option<(usize, usize)>) -> ClauseFailure {
    ClauseFailure {
        rule_name: rule.map(String::from),
        messages: vec![Messages {
            custom_message: Some(String::from("custom")),
            error_message: Some(String::from(error)),
            location: at.map(|(line, col)| Location { line, col }),
        }],
    }
}

#[test]
fn sanitize_path_encodes_each_segment_of_an_absolute_path() {
    assert_eq!("file:///home/me/my%20repo/a%23b.yaml", sanitize_path("/home/me/my repo/a#b.yaml"));
    assert_eq!("file:///x/%25/%C3%A9~-._", sanitize_path("/x/%/é~-._"));
}

#[test]
fn sanitize_path_leaves_a_relative_path_alone() {
    assert_eq!("templates/a b.yaml", sanitize_path("templates/a b.yaml"));
    assert_eq!("", sanitize_path(""));
}

#[test]
fn extract_rule_id_is_the_name_itself() {
    assert_eq!("My.Dotted-Rules.guard/default", extract_rule_id("My.Dotted-Rules.guard/default"));
    assert_eq!("s3_versioning_enabled", extract_rule_id("s3_versioning_enabled"));
}

#[test]
fn handle_messages_joins_error_and_custom_message() {
    let m = Messages {
        custom_message: Some(String::from("fix it")),
        error_message: Some(String::from("Check was not compliant")),
        location: None,
    };
    assert_eq!("Check was not compliant fix it", handle_messages(&m));
    let empty = Messages { custom_message: None, error_message: None, location: None };
    assert_eq!(" ", handle_messages(&empty));
}

#[test]
fn locations_start_at_line_and_column_one() {
    let locs = generate_sarif_locations("/t.yaml", 0, 0);
    assert_eq!(1, locs.len());
    assert_eq!("file:///t.yaml", locs[0].physical_location.artifact_location.uri);
    assert_eq!(1, locs[0].physical_location.region.start_line);
    assert_eq!(1, locs[0].physical_location.region.start_column);
    let locs = generate_sarif_locations("t.yaml", 7, 3);
    assert_eq!(7, locs[0].physical_location.region.start_line);
    assert_eq!(3, locs[0].physical_location.region.start_column);
}

#[test]
fn results_of_a_failure_carry_the_rule_name_and_location() {
    let f = failure(Some("s3_encrypted"), "not compliant", Some((12, 5)));
    let results = SarifResults::from_failure(&f, "/data/t.yaml");
    assert_eq!(1, results.0.len());
    let r = &results.0[0];
    assert_eq!("s3_encrypted", r.rule_id);
    assert_eq!("error", r.level);
    assert_eq!("not compliant custom", r.message.text);
    assert_eq!(12, r.locations[0].physical_location.region.start_line);
    assert_eq!(5, r.locations[0].physical_location.region.start_column);

    let clause = failure(None, "clause failed", None);
    let results = SarifResults::from_failure(&clause, "t.yaml");
    assert_eq!("", results.0[0].rule_id);
}

#[test]
fn a_report_names_each_failing_file_once() {
    let reports = vec![
        FileReport {
            name: String::from("/data/a.yaml"),
            status: Status::FAIL,
            not_compliant: vec![failure(Some("r1"), "e1", Some((1, 1)))],
            rule_file_errors: vec![],
        },
        FileReport {
            name: String::from("/data/b.yaml"),
            status: Status::PASS,
            not_compliant: vec![],
            rule_file_errors: vec![],
        },
        FileReport {
            name: String::from("/data/a.yaml"),
            status: Status::FAIL,
            not_compliant: vec![failure(Some("r2"), "e2", None)],
            rule_file_errors: vec![],
        },
    ];
    let report = SarifReport::new(&reports, driver());
    assert_eq!("2.1.0", report.version);
    assert_eq!(
        "https://docs.oasis-open.org/sarif/sarif/v2.1.0/errata01/os/schemas/sarif-schema-2.1.0.json",
        report.schema
    );
    assert_eq!(1, report.runs.len());
    let run = &report.runs[0];
    assert_eq!(1, run.artifacts.len());
    assert_eq!("file:///data/a.yaml", run.artifacts[0].location.uri);
    assert_eq!(2, run.results.0.len());
    assert_eq!("r1", run.results.0[0].rule_id);
    assert_eq!("r2", run.results.0[1].rule_id);
    assert!(run.invocations.is_empty());
    assert_eq!("cfn-guard 3.1.2", run.tool.driver.full_name);
    assert_eq!("Amazon Web Services", run.tool.driver.organization);
}

#[test]
fn an_unreadable_rules_file_is_one_notification() {
    let errors = || {
        vec![RuleFileError { file_name: String::from("bad.guard"), error: String::from("parse error") }]
    };
    let reports = vec![
        FileReport {
            name: String::from("a.yaml"),
            status: Status::SKIP,
            not_compliant: vec![],
            rule_file_errors: errors(),
        },
        FileReport {
            name: String::from("b.yaml"),
            status: Status::SKIP,
            not_compliant: vec![],
            rule_file_errors: errors(),
        },
    ];
    let report = SarifReport::new(&reports, driver());
    let run = &report.runs[0];
    assert!(run.artifacts.is_empty());
    assert!(run.results.0.is_empty());
    assert_eq!(1, run.invocations.len());
    assert!(!run.invocations[0].execution_successful);
    let notes = &run.invocations[0].tool_configuration_notifications;
    assert_eq!(1, notes.len());
    assert_eq!("error", notes[0].level);
    assert_eq!(
        "Rules file bad.guard could not be parsed, so none of its rules were evaluated: parse error",
        notes[0].message.text
    );
}
