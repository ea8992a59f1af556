use cfn_guard::commands::console_tree::{
    ClauseCheck, ComparisonClauseCheck, DataValue, EventRecord, InComparisonCheck,
    MissingValueCheck, QueryResult, UnResolved, UnaryValueCheck, ValueCheck,
};
use cfn_guard::commands::name_info::{
    extract_name_info_from_record, failing_rule_name_infos, find_failing_clauses, CmpOperator,
    Comparison,
};
use cfn_guard::commands::reporting::{NamedStatus, RecordType, Status};

fn data(path: &str, json: &str) -> DataValue {
    DataValue { path: String::from(path), value: String::from(json), json: String::from(json) }
}

fn record(container: Option<RecordType>, children: Vec<EventRecord>) -> EventRecord {
    EventRecord { context: String::from("c"), container, children, text: String::new() }
}

fn clause(check: ClauseCheck) -> EventRecord {
    record(Some(RecordType::ClauseValueCheck(check)), vec![])
}

fn comparison(from: QueryResult, to: Option<QueryResult>) -> ClauseCheck {
    ClauseCheck::Comparison(ComparisonClauseCheck {
        status: Status::FAIL,
        comparison: (CmpOperator::Eq, false),
        from,
        to,
        message: None,
        custom_message: Some(String::from("must match")),
    })
}

#[test]
fn a_failed_comparison_reports_both_values_and_the_operator() {
    let rec = clause(comparison(
        QueryResult::Resolved(data("/Resources/b/Properties/x", "\"a\"")),
        Some(QueryResult::Literal(data("", "\"b\""))),
    ));
    let info = extract_name_info_from_record("r", &rec);
    assert_eq!(info.rule, "r");
    assert_eq!(info.path, "/Resources/b/Properties/x");
    assert_eq!(info.provided, Some(String::from("\"a\"")));
    assert_eq!(info.expected, Some(String::from("\"b\"")));
    assert_eq!(
        info.comparison,
        Some(Comparison { operator: CmpOperator::Eq, not_operator_exists: false })
    );
    assert_eq!(info.message, "must match");
    assert_eq!(info.error, None);
}

#[test]
fn a_missing_value_reports_where_the_query_stopped_and_why() {
    let rec = clause(ClauseCheck::Unary(UnaryValueCheck {
        comparison: (CmpOperator::Exists, false),
        value: ValueCheck {
            status: Status::FAIL,
            from: QueryResult::UnResolved(UnResolved {
                traversed_to: data("/Resources/b", "{}"),
                remaining_query: String::from("Properties"),
                reason: Some(String::from("no Properties")),
            }),
            message: None,
            custom_message: None,
        },
    }));
    let info = extract_name_info_from_record("r", &rec);
    assert_eq!(info.path, "/Resources/b");
    assert_eq!(info.provided, Some(String::from("{}")));
    assert_eq!(info.error, Some(String::from("no Properties")));
    assert_eq!(info.message, "");
}

#[test]
fn a_membership_check_reports_the_list_as_a_json_array() {
    let rec = clause(ClauseCheck::InComparison(InComparisonCheck {
        status: Status::FAIL,
        from: QueryResult::Resolved(data("/a", "3")),
        to: vec![QueryResult::Literal(data("", "1")), QueryResult::Literal(data("", "2"))],
        comparison: (CmpOperator::In, false),
        message: Some(String::from("in")),
    }));
    let info = extract_name_info_from_record("r", &rec);
    assert_eq!(info.provided, Some(String::from("3")));
    assert_eq!(info.expected, Some(String::from("[1,2]")));
    assert_eq!(info.path, "");
    assert_eq!(info.message, "in");
}

#[test]
fn a_rule_with_a_message_reports_its_own_name() {
    let rec = record(
        Some(RecordType::RuleCheck(NamedStatus {
            name: String::from("inner"),
            status: Status::FAIL,
            message: Some(String::from("why")),
        })),
        vec![],
    );
    let info = extract_name_info_from_record("outer", &rec);
    assert_eq!(info.rule, "inner");
    assert_eq!(info.message, "why");
}

#[test]
fn failing_clauses_skip_filters_and_successes_and_keep_the_order() {
    let dependent = clause(ClauseCheck::DependentRule(MissingValueCheck {
        rule: String::from("other"),
        status: Status::FAIL,
        message: Some(String::from("e")),
        custom_message: None,
    }));
    let empty = clause(ClauseCheck::NoValueForEmptyCheck(Some(String::from("m"))));
    let below_filter = record(Some(RecordType::Filter(false)), vec![clause(ClauseCheck::NoValueForEmptyCheck(None))]);
    let block = record(None, vec![clause(ClauseCheck::Success), dependent, below_filter, empty]);
    let rule = record(
        Some(RecordType::RuleCheck(NamedStatus {
            name: String::from("r"),
            status: Status::FAIL,
            message: None,
        })),
        vec![block],
    );
    assert_eq!(find_failing_clauses(&rule).len(), 2);
    let infos = failing_rule_name_infos("r", &rule);
    assert_eq!(infos.len(), 2);
    assert_eq!(infos[0].error, Some(String::from("e")));
    assert_eq!(infos[0].rule, "r");
    assert_eq!(
        infos[1].comparison,
        Some(Comparison { operator: CmpOperator::Empty, not_operator_exists: false })
    );
    assert_eq!(infos[1].message, "m");
}
