use cfn_guard::commands::migrate::{
    get_resource_types_in_ruleset, BaseRule, Clause, CmpOperator, ConditionalRule, OldGuardValues,
    PropertyComparison, Rule, RuleLineType, TypeName,
};
use cfn_guard::commands::rulegen::Value;

#[test]
fn test_get_resource_types_in_ruleset() {
    let rules = vec![
        RuleLineType::Comment(String::from("MyComment")),
        RuleLineType::Clause(Clause {
            rules: vec![
                Rule::Basic(BaseRule {
                    resource_type: TypeName { name: String::from("AWS::S3::Bucket") },
                    property_comparison: PropertyComparison {
                        property_path: String::from("Path.To.Property"),
                        operator: CmpOperator::Eq,
                        comparison_value: OldGuardValues::Value(Value::String(String::from("Test"))),
                    },
                    custom_message: None,
                }),
                Rule::Conditional(ConditionalRule {
                    resource_type: TypeName { name: String::from("AWS::S3::BucketPolicy") },
                    when_condition: PropertyComparison {
                        property_path: String::from("Path.To.Property"),
                        operator: CmpOperator::Eq,
                        comparison_value: OldGuardValues::Value(Value::String(String::from("Test"))),
                    },
                    check_condition: PropertyComparison {
                        property_path: String::from("Path.To.Property"),
                        operator: CmpOperator::Eq,
                        comparison_value: OldGuardValues::Value(Value::String(String::from("Test"))),
                    },
                }),
                Rule::Basic(BaseRule {
                    resource_type: TypeName { name: String::from("AWS::S3::Bucket") },
                    property_comparison: PropertyComparison {
                        property_path: String::from("Path.To.Property"),
                        operator: CmpOperator::Eq,
                        comparison_value: OldGuardValues::Value(Value::String(String::from("Test1"))),
                    },
                    custom_message: None,
                }),
            ],
        }),
        RuleLineType::Clause(Clause {
            rules: vec![Rule::Basic(BaseRule {
                resource_type: TypeName { name: String::from("AWS::EC2::Instance") },
                property_comparison: PropertyComparison {
                    property_path: String::from("Path.To.Property"),
                    operator: CmpOperator::Eq,
                    comparison_value: OldGuardValues::Value(Value::String(String::from("Test1"))),
                },
                custom_message: None,
            })],
        }),
    ];
    let expected_resource_types = vec![
        TypeName { name: String::from("AWS::EC2::Instance") },
        TypeName { name: String::from("AWS::S3::Bucket") },
        TypeName { name: String::from("AWS::S3::BucketPolicy") },
    ];

    let result_resource_types = get_resource_types_in_ruleset(&rules).unwrap();
    assert_eq!(expected_resource_types, result_resource_types)
}

#[test]
fn a_ruleset_without_clauses_has_no_resource_types() {
    let rules = vec![
        RuleLineType::Comment(String::from("only a comment")),
        RuleLineType::EmptyLine,
    ];
    assert!(get_resource_types_in_ruleset(&rules).unwrap().is_empty());
}
