use cfn_guard::commands::clause_tree::{
    pprint_clauses, BinaryCheck, BinaryComparison, BinaryReport, BlockReport, ClauseReport,
    DisjunctionsReport, GuardClauseReport, InComparison, LocalResourceAggr, Messages,
    PlainErrorWriter, RuleReport, single_line, UnResolvedValue, UnaryCheck, UnaryReport, ValueAt,
};
use cfn_guard::commands::name_info::CmpOperator;

fn resource(ids: Vec<u64>) -> LocalResourceAggr {
    LocalResourceAggr {
        name: String::from("b"),
        resource_type: String::from("AWS::S3::Bucket"),
        cdk_path: None,
        clauses: ids,
        paths: vec![],
    }
}

fn messages(custom: Option<&str>, error: Option<&str>) -> Messages {
    Messages { custom_message: custom.map(String::from), error_message: error.map(String::from) }
}

fn value(path: &str, v: &str) -> ValueAt {
    ValueAt { path: String::from(path), line: 3, value: String::from(v) }
}

fn binary(id: u64, check: BinaryCheck) -> ClauseReport {
    ClauseReport::Clause(GuardClauseReport::Binary(BinaryReport {
        id,
        context: String::from("Properties.Encrypted EQUALS true"),
        messages: messages(None, None),
        check,
    }))
}

fn resolved_comparison() -> BinaryCheck {
    BinaryCheck::Resolved(BinaryComparison {
        from: value("/Resources/b/Properties/Encrypted", "false"),
        to: value("", "true"),
        comparison: (CmpOperator::Eq, false),
    })
}

#[test]
fn a_rule_holds_its_message_and_its_clauses_in_an_all_block() {
    let rule = ClauseReport::Rule(RuleReport {
        name: String::from("s3_encrypted"),
        messages: messages(Some("must encrypt"), None),
        checks: vec![binary(1, resolved_comparison())],
    });
    let out = pprint_clauses(&rule, &resource(vec![1]), "  ", &mut PlainErrorWriter);
    assert_eq!(
        out,
        "  Rule = s3_encrypted {\n    Message = must encrypt\n    ALL {\n      Check = Properties.Encrypted EQUALS true {\n        ComparisonError {\n\n        }\n      }\n    }\n  }\n"
    );
}

#[test]
fn a_clause_that_did_not_fail_on_the_resource_prints_nothing() {
    let ors = ClauseReport::Disjunctions(DisjunctionsReport {
        checks: vec![binary(1, resolved_comparison())],
    });
    let out = pprint_clauses(&ors, &resource(vec![2]), "", &mut PlainErrorWriter);
    assert_eq!(out, "ANY {\n}\n");
}

#[test]
fn a_block_that_found_nothing_pads_its_headings_to_the_missing_property() {
    let block = ClauseReport::Block(BlockReport {
        id: 2,
        context: String::from("Properties"),
        messages: messages(Some("fix it"), Some("err")),
        unresolved: Some(UnResolvedValue {
            path: String::from("/Resources/b"),
            line: 3,
            remaining_query: String::from("Properties"),
            reason: None,
        }),
    });
    let out = pprint_clauses(&block, &resource(vec![2]), "", &mut PlainErrorWriter);
    assert_eq!(
        out,
        "Check = Properties {\n  RequiredPropertyError {\n    PropertyPath       = /Resources/b\n    MissingProperty    = Properties\n    Message             = fix it\n    Error               = err\n\n  }\n}\n"
    );
}

#[test]
fn a_property_that_could_not_be_retrieved_says_where_the_query_stopped() {
    let clause = ClauseReport::Clause(GuardClauseReport::Unary(UnaryReport {
        id: 4,
        context: String::from("c"),
        messages: messages(Some("msg"), Some("ignored")),
        check: UnaryCheck::UnResolved(UnResolvedValue {
            path: String::from("/a"),
            line: 1,
            remaining_query: String::from("b"),
            reason: Some(String::from("r")),
        }),
    }));
    let out = pprint_clauses(&clause, &resource(vec![4]), "", &mut PlainErrorWriter);
    assert_eq!(
        out,
        "Check = c {\n  Message = msg\n  RequiredPropertyError {\n    PropertyPath = /a\n    MissingProperty = b\n    Reason = r\n  }\n}\n"
    );
}

#[test]
fn a_failed_membership_check_closes_its_block_before_what_is_added() {
    let clause = binary(
        5,
        BinaryCheck::InResolved(InComparison {
            from: value("/a", "\"x\""),
            to: vec![value("", "\"y\"")],
            comparison: (CmpOperator::In, false),
        }),
    );
    let out = pprint_clauses(&clause, &resource(vec![5]), "", &mut PlainErrorWriter);
    assert_eq!(
        out,
        "Check = Properties.Encrypted EQUALS true {\n  ComparisonError {\n  }\n\n}\n"
    );
}

fn encrypted_rule() -> ClauseReport {
    ClauseReport::Rule(RuleReport {
        name: String::from("s3_encrypted"),
        messages: messages(Some("must encrypt"), None),
        checks: vec![binary(1, resolved_comparison())],
    })
}

#[test]
fn the_single_line_summary_draws_each_resource_with_the_rules_that_failed_on_it() {
    let failing = LocalResourceAggr {
        paths: vec![String::from("/s3_encrypted/0")],
        ..resource(vec![1])
    };
    let other = LocalResourceAggr {
        name: String::from("c"),
        cdk_path: Some(String::from("Stack/c")),
        ..resource(vec![])
    };
    let out = single_line(
        "d.json",
        "r.guard",
        &vec![encrypted_rule()],
        &vec![failing, other],
        &mut PlainErrorWriter,
    );
    assert_eq!(
        out,
        "Evaluating data d.json against rules r.guard\nNumber of non-compliant resources 2\nResource = b {\n  Type      = AWS::S3::Bucket\n  Rule = s3_encrypted {\n    Message = must encrypt\n    ALL {\n      Check = Properties.Encrypted EQUALS true {\n        ComparisonError {\n\n        }\n      }\n    }\n  }\n}\nResource = c {\n  Type      = AWS::S3::Bucket\n  CDK-Path  = Stack/c\n}\n"
    );
}

#[test]
fn the_single_line_summary_is_empty_when_no_rule_failed() {
    let out = single_line("d.json", "r.guard", &vec![], &vec![resource(vec![])], &mut PlainErrorWriter);
    assert_eq!(out, "");
}
