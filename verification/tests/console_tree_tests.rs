use cfn_guard::commands::console_tree::{
    pprint_failed_sub_tree, BlockCheck, ClauseCheck, ComparisonClauseCheck, EventRecord,
    DataValue, MissingValueCheck, QueryResult, UnResolved, UnaryValueCheck, ValueCheck,
};
use cfn_guard::commands::name_info::CmpOperator;
use cfn_guard::commands::reporting::{NamedStatus, RecordType, Status};

fn record(container: RecordType, text: &str, children: Vec<EventRecord>) -> EventRecord {
    EventRecord {
        context: String::from("ctx"),
        container: Some(container),
        children,
        text: String::from(text),
    }
}

fn named(name: &str, status: Status) -> NamedStatus {
    NamedStatus { name: String::from(name), status, message: None }
}

fn data(path: &str, value: &str) -> DataValue {
    DataValue { path: String::from(path), value: String::from(value), json: String::from(value) }
}

fn resolved(path: &str, value: &str) -> QueryResult {
    QueryResult::Resolved(data(path, value))
}

fn unresolved(traversed_to: &str, remaining: &str) -> QueryResult {
    QueryResult::UnResolved(UnResolved {
        traversed_to: data("/p", traversed_to),
        remaining_query: String::from(remaining),
        reason: None,
    })
}

fn comparison(to: Option<QueryResult>, custom: Option<&str>) -> ClauseCheck {
    ClauseCheck::Comparison(ComparisonClauseCheck {
        status: Status::FAIL,
        comparison: (CmpOperator::Eq, false),
        from: resolved("/Resources/b/Properties/x", "\"a\""),
        to,
        message: None,
        custom_message: custom.map(String::from),
    })
}

fn missing_exists() -> ClauseCheck {
    ClauseCheck::Unary(UnaryValueCheck {
        comparison: (CmpOperator::Exists, false),
        value: ValueCheck {
            status: Status::FAIL,
            from: unresolved("T", "q"),
            message: Some(String::from("E")),
            custom_message: None,
        },
    })
}

#[test]
fn failing_file_rule_and_clauses_are_drawn_as_a_tree() {
    let clauses = vec![
        record(
            RecordType::ClauseValueCheck(comparison(
                Some(resolved("", "\"b\"")),
                Some("line1\nline2"),
            )),
            "",
            vec![],
        ),
        record(RecordType::ClauseValueCheck(missing_exists()), "", vec![]),
    ];
    let rule = record(RecordType::RuleCheck(named("r", Status::FAIL)), "R", clauses);
    let file = record(RecordType::FileCheck(named("f", Status::FAIL)), "F", vec![rule]);
    let out = pprint_failed_sub_tree(&file, "", true, "rules.guard", "data.json");
    assert_eq!(
        out,
        "`- F\n   `- R\n      |- Check was not compliant as property value [\"a\"] not equal to value [\"b\"]. Message = [line1;line2]\n      `- Check was not compliant as property [q] is missing. Value traversed to [T]. Error = [E]\n"
    );
}

#[test]
fn a_passing_rule_prints_nothing_below_it() {
    let clause = record(RecordType::ClauseValueCheck(missing_exists()), "", vec![]);
    let rule = record(RecordType::RuleCheck(named("r", Status::PASS)), "R", vec![clause]);
    assert_eq!(pprint_failed_sub_tree(&rule, "", true, "rules.guard", "data.json"), "");
}

#[test]
fn a_failing_block_is_not_printed_but_its_clauses_are_without_indent() {
    let clause = record(
        RecordType::ClauseValueCheck(ClauseCheck::DependentRule(MissingValueCheck {
            rule: String::from("other"),
            status: Status::FAIL,
            message: None,
            custom_message: None,
        })),
        "",
        vec![],
    );
    let block = record(
        RecordType::BlockGuardCheck(BlockCheck {
            status: Status::FAIL,
            at_least_one_matches: false,
            message: None,
        }),
        "B",
        vec![clause],
    );
    assert_eq!(
        pprint_failed_sub_tree(&block, "|  ", false, "rules.guard", "data.json"),
        "|  `- Check was not compliant as dependent rule [other] evaluated to FAIL in [rules.guard]. Context [ctx]\n"
    );
}

#[test]
fn a_missing_value_to_compare_with_stops_the_branch() {
    let below = record(RecordType::ClauseValueCheck(missing_exists()), "", vec![]);
    let clause = record(
        RecordType::ClauseValueCheck(comparison(Some(unresolved("/Resources", "b.y")), None)),
        "",
        vec![below],
    );
    assert_eq!(
        pprint_failed_sub_tree(&clause, "", false, "rules.guard", "data.json"),
        "|- Check was not compliant as property [b.y] to compare to is missing. Value traversed to [/Resources].\n"
    );
}

#[test]
fn nothing_to_compare_with_prints_null() {
    let clause = record(RecordType::ClauseValueCheck(comparison(None, None)), "", vec![]);
    assert_eq!(
        pprint_failed_sub_tree(&clause, "", true, "rules.guard", "data.json"),
        "`- Check was not compliant as property value [\"a\"] not equal to value [NULL].\n"
    );
}

#[test]
fn a_non_empty_variable_and_a_missing_block_value() {
    let empty = record(
        RecordType::ClauseValueCheck(ClauseCheck::NoValueForEmptyCheck(Some(String::from(
            "a\nb",
        )))),
        "",
        vec![],
    );
    assert_eq!(
        pprint_failed_sub_tree(&empty, "", true, "rules.guard", "data.json"),
        "`- Check was not compliant as variable in context [ctx] was not empty. Message [a;b]\n"
    );
    let block_value = record(
        RecordType::ClauseValueCheck(ClauseCheck::MissingBlockValue(ValueCheck {
            status: Status::FAIL,
            from: unresolved("/Resources/b", "Properties"),
            message: None,
            custom_message: None,
        })),
        "",
        vec![],
    );
    assert_eq!(
        pprint_failed_sub_tree(&block_value, "", true, "rules.guard", "data.json"),
        "`- Check was not compliant as property [Properties] is missing in data [data.json]. Value traversed to [/Resources/b]\n"
    );
}
