use cfn_guard::commands::validate::{
    payload_data_name, payload_rules_name, summary_type, validation_exit_code, SummaryFlags,
};

fn flags(pass: bool, fail: bool, skip: bool) -> SummaryFlags {
    SummaryFlags { pass, fail, skip }
}

fn values(vs: &[&str]) -> Vec<String> {
    vs.iter().map(|v| v.to_string()).collect()
}

#[test]
fn without_values_the_summary_shows_failures() {
    assert_eq!(flags(false, true, false), summary_type(None));
}

#[test]
fn summary_values_add_partitions_in_order() {
    assert_eq!(flags(true, false, true), summary_type(Some(&values(&["pass", "skip"]))));
    assert_eq!(flags(true, true, true), summary_type(Some(&values(&["fail", "all"]))));
    assert_eq!(flags(false, false, false), summary_type(Some(&values(&["all", "none"]))));
    assert_eq!(flags(false, true, false), summary_type(Some(&values(&["pass", "none", "fail"]))));
    assert_eq!(flags(false, false, false), summary_type(Some(&values(&[]))));
}

#[test]
fn payload_documents_are_numbered_from_one() {
    assert_eq!("DATA_STDIN[1]", payload_data_name(0));
    assert_eq!("RULES_STDIN[12]", payload_rules_name(11));
}

#[test]
fn the_last_failing_rules_file_gives_the_exit_status() {
    assert_eq!(0, validation_exit_code(&vec![]));
    assert_eq!(0, validation_exit_code(&vec![0, 0]));
    assert_eq!(19, validation_exit_code(&vec![5, 19, 0]));
    assert_eq!(5, validation_exit_code(&vec![19, 0, 5]));
}
