use cfn_guard::commands::name_info::{
    print_name_info, single_line_summary, CmpOperator, Comparison, NameInfo,
};

fn info(comparison: Option<Comparison>, error: Option<&str>) -> NameInfo {
    NameInfo {
        rule: String::from("s3_encrypted"),
        path: String::from("/Resources/b/Properties/Encrypted"),
        provided: Some(String::from("false")),
        expected: Some(String::from("true")),
        comparison,
        message: String::from("must be\nencrypted"),
        error: error.map(String::from),
    }
}

fn cmp(operator: CmpOperator, not: bool) -> Option<Comparison> {
    Some(Comparison { operator, not_operator_exists: not })
}

#[test]
fn a_failed_comparison_names_both_values() {
    assert_eq!(
        "Property [/Resources/b/Properties/Encrypted] in data [t.yaml] is not compliant with [r.guard/s3_encrypted] because provided value [false] did not match expected value [true]. Error Message [must be;encrypted]\n",
        print_name_info(&vec![info(cmp(CmpOperator::Eq, false), None)], "r.guard", "t.yaml")
    );
    assert_eq!(
        "Property [/Resources/b/Properties/Encrypted] in data [t.yaml] is not compliant with [r.guard/s3_encrypted] because provided value [false] did match expected value in [true]. Error Message [must be;encrypted]\n",
        print_name_info(&vec![info(cmp(CmpOperator::In, true), None)], "r.guard", "t.yaml")
    );
}

#[test]
fn a_failed_one_value_check_says_what_happened() {
    let mut i = info(cmp(CmpOperator::IsList, false), None);
    i.provided = None;
    assert_eq!(
        "Property [/Resources/b/Properties/Encrypted] in data [t.yaml] is not compliant with [r.guard/s3_encrypted] because needed value at [null] was not a list . Error Message [must be;encrypted]\n",
        print_name_info(&vec![i], "r.guard", "t.yaml")
    );
    assert!(print_name_info(&vec![info(cmp(CmpOperator::Exists, true), None)], "r", "d")
        .contains("] existed. Error"));
}

#[test]
fn a_retrieval_error_and_a_parameterized_rule() {
    assert_eq!(
        "Property traversed until [/Resources/b/Properties/Encrypted] in data [t.yaml] is not compliant with [r.guard/s3_encrypted] due to retrieval error. Error Message [no such key]\nParameterized Rule r.guard/s3_encrypted failed for t.yaml. Reason must be; encrypted\n",
        print_name_info(
            &vec![info(cmp(CmpOperator::Eq, false), Some("no such key")), info(None, None)],
            "r.guard",
            "t.yaml"
        )
    );
}

#[test]
fn the_single_line_summary_frames_its_sections() {
    let failed = vec![(String::from("s3_encrypted"), vec![info(None, None)])];
    assert_eq!(
        "Evaluation of rules r.guard against data t.yaml\n--\nParameterized Rule r.guard/s3_encrypted failed for t.yaml. Reason must be; encrypted\n--\nRule [r.guard/ok] is compliant for template [t.yaml]\n--\n",
        single_line_summary(&failed, &vec![String::from("ok")], &vec![], "r.guard", "t.yaml")
    );
    assert_eq!(
        "Evaluation of rules r against data d\n--\n",
        single_line_summary(&vec![], &vec![], &vec![], "r", "d")
    );
}
