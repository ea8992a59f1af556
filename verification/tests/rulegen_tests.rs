use cfn_guard::commands::rulegen::{self, Value};
use cfn_guard::commands::wrapper::{WriteBuffer, Writer};
use cfn_guard::commands::{ERROR_STATUS_CODE, SUCCESS_STATUS_CODE};

/// A template as the library reads it, loaded from JSON or YAML text.
fn load(text: &str) -> Value {
    let doc: serde_yaml::Value = serde_yaml::from_str(text).unwrap();
    convert(&doc)
}

fn convert(v: &serde_yaml::Value) -> Value {
    match v {
        serde_yaml::Value::Null => Value::Null,
        serde_yaml::Value::Bool(b) => Value::Bool(*b),
        serde_yaml::Value::Number(n) => match n.as_i64() {
            Some(i) => Value::Int(i),
            None => {
                let f = n.as_f64().unwrap();
                if f.is_finite() {
                    Value::Float(Some(if f.fract() == 0.0 { format!("{f:.1}") } else { f.to_string() }))
                } else {
                    Value::Float(None)
                }
            }
        },
        serde_yaml::Value::String(s) => Value::String(s.clone()),
        serde_yaml::Value::Sequence(items) => Value::List(items.iter().map(convert).collect()),
        serde_yaml::Value::Mapping(m) => Value::Mapping(
            m.iter()
                .map(|(k, v)| (k.as_str().unwrap().to_string(), convert(v)))
                .collect(),
        ),
        serde_yaml::Value::Tagged(t) => convert(&t.value),
    }
}

/// A whole generation over `template`: the rules text and the status.
fn generate(template: &str) -> (String, i32) {
    let g = rulegen::generate(&load(template)).unwrap();
    (g.rules, g.status)
}

/// The warnings a generation over `template` reports.
fn warnings_for(template: &str) -> String {
    let g = rulegen::generate(&load(template)).unwrap();
    g.warnings.join("\n")
}

#[test]
fn test_rulegen() {
    let data = String::from(
        r#"
        {
            "Resources": {
                "NewVolume" : {
                    "Type" : "AWS::EC2::Volume",
                    "Properties" : {
                        "Size" : 500,
                        "Encrypted": false,
                        "AvailabilityZone" : "us-west-2b"
                    }
                },
                "NewVolume2" : {
                    "Type" : "AWS::EC2::Volume",
                    "Properties" : {
                        "Size" : 50,
                        "Encrypted": false,
                        "AvailabilityZone" : "us-west-2c"
                    }
                }
            }
        }
        "#,
    );

    let mut writer = Writer::new_with_err(WriteBuffer::Vec(vec![]), WriteBuffer::Vec(vec![]));
    let generated_rules = rulegen::parse_template_and_call_gen(&load(&data), &mut writer).unwrap();

    let types = generated_rules.resource_types();
    assert_eq!(1, types.len());
    assert!(types.contains(&String::from("AWS::EC2::Volume")));

    let property_map = generated_rules.property_names("AWS::EC2::Volume");

    assert_eq!(3, property_map.len());
    assert!(property_map.contains(&String::from("Encrypted")));
    assert!(property_map.contains(&String::from("Size")));
    assert!(property_map.contains(&String::from("AvailabilityZone")));
}

#[test]
fn test_rulegen_no_properties() {
    let data = String::from(
        r#"
        {
            "Resources": {
                "NewVolume" : {
                    "Type" : "AWS::EC2::Volume",
                },
                "NewVolume2" : {
                    "Type" : "AWS::EC2::Volume",
                }
            }
        }
        "#,
    );

    let mut writer = Writer::new_with_err(WriteBuffer::Vec(vec![]), WriteBuffer::Vec(vec![]));
    let generated_rules = rulegen::parse_template_and_call_gen(&load(&data), &mut writer).unwrap();

    assert_eq!(0, generated_rules.resource_types().len());
}

fn untyped_resource_is_skipped(template: &str) {
    let mut writer = Writer::new_with_err(WriteBuffer::Vec(vec![]), WriteBuffer::Vec(vec![]));
    let generated_rules = rulegen::parse_template_and_call_gen(&load(template), &mut writer).unwrap();

    assert_eq!(0, generated_rules.resource_types().len());
    assert!(warnings_for(template).contains("a generated rule is keyed on the resource type"));
}

#[test]
fn test_rulegen_resource_without_a_usable_type_is_skipped_rather_than_panicking_type_absent() {
    untyped_resource_is_skipped(r#"{"Resources": {"B": {"Properties": {"Encrypted": false}}}}"#);
}

#[test]
fn test_rulegen_resource_without_a_usable_type_is_skipped_rather_than_panicking_type_is_a_map() {
    untyped_resource_is_skipped(
        r#"{"Resources": {"B": {"Type": {"inner": "x"}, "Properties": {"Encrypted": false}}}}"#,
    );
}

#[test]
fn test_rulegen_resource_without_a_usable_type_is_skipped_rather_than_panicking_type_is_a_list() {
    untyped_resource_is_skipped(
        r#"{"Resources": {"B": {"Type": ["x"], "Properties": {"Encrypted": false}}}}"#,
    );
}

#[test]
fn test_rulegen_skips_only_the_resource_without_a_type() {
    let template = r#"
        {
            "Resources": {
                "Untyped": { "Properties": { "Encrypted": false } },
                "Volume": {
                    "Type": "AWS::EC2::Volume",
                    "Properties": { "Size": 500 }
                }
            }
        }
        "#;

    let (rules, status) = generate(template);

    assert_eq!(SUCCESS_STATUS_CODE, status);
    assert!(rules.contains("%aws_ec2_volume_resources.Properties.Size == 500"));
}

#[test]
fn test_rulegen_renders_a_null_property_as_null() {
    let (rules, status) =
        generate(r#"{"Resources": {"B": {"Type": "T", "Properties": {"E": null}}}}"#);

    assert_eq!(SUCCESS_STATUS_CODE, status);
    assert!(rules.contains(r#"%t_resources.Properties.E == null"#), "{}", rules);
}

#[test]
fn test_rulegen_renders_a_nested_null_as_null() {
    let (rules, _) = generate(
        r#"{"Resources": {"B": {"Type": "T", "Properties": {"Outer": {"Inner": null}}}}}"#,
    );

    assert!(
        rules.contains(r#"%t_resources.Properties.Outer == {"Inner":null}"#),
        "{}",
        rules
    );
}

#[test]
fn test_rulegen_escapes_a_quote_in_a_value() {
    let (rules, status) =
        generate(r#"{"Resources": {"B": {"Type": "T", "Properties": {"M": "he said \"hi\""}}}}"#);

    assert_eq!(SUCCESS_STATUS_CODE, status);
    assert!(
        rules.contains(r#"%t_resources.Properties.M == "he said \"hi\"""#),
        "{}",
        rules
    );
}

fn quotes_a_property_name(name: &str) {
    let template =
        format!(r#"{{"Resources": {{"B": {{"Type": "T", "Properties": {{"{name}": "ok"}}}}}}}}"#);

    let (rules, status) = generate(&template);

    assert_eq!(SUCCESS_STATUS_CODE, status);
    assert!(
        rules.contains(&format!(r#"%t_resources.Properties."{name}" == "ok""#)),
        "{}",
        rules
    );
}

#[test]
fn test_rulegen_quotes_a_property_name_the_grammar_will_not_take_bare_space() {
    quotes_a_property_name("Weird Name");
}

#[test]
fn test_rulegen_quotes_a_property_name_the_grammar_will_not_take_bare_dot() {
    quotes_a_property_name("dotted.name");
}

#[test]
fn test_rulegen_quotes_a_property_name_the_grammar_will_not_take_bare_slash() {
    quotes_a_property_name("slash/name");
}

#[test]
fn test_rulegen_quotes_a_property_name_the_grammar_will_not_take_bare_hyphen() {
    quotes_a_property_name("hyphen-name");
}

#[test]
fn test_rulegen_quotes_a_property_name_the_grammar_will_not_take_bare_leading_digit() {
    quotes_a_property_name("1st");
}

#[test]
fn test_rulegen_leaves_an_ordinary_property_name_bare() {
    let (rules, _) =
        generate(r#"{"Resources": {"B": {"Type": "T", "Properties": {"Size_2": 1}}}}"#);

    assert!(rules.contains("%t_resources.Properties.Size_2 == 1"), "{}", rules);
}

fn refuses_a_value(value: &str) {
    let escaped = value.replace('\n', "\\n").replace('\r', "\\r").replace('\t', "\\t");
    let template =
        format!(r#"{{"Resources": {{"B": {{"Type": "T", "Properties": {{"Script": "{escaped}"}}}}}}}}"#);

    let (rules, status) = generate(&template);

    assert_eq!(ERROR_STATUS_CODE, status, "{}", rules);
    assert!(warnings_for(&template).contains(
        "no check generated for T.Properties.Script: its value holds a line ending or another control character"
    ));
}

#[test]
fn test_rulegen_refuses_a_value_no_string_literal_can_carry_newline() {
    refuses_a_value("line one\nline two");
}

#[test]
fn test_rulegen_refuses_a_value_no_string_literal_can_carry_carriage_return() {
    refuses_a_value("line one\rline two");
}

#[test]
fn test_rulegen_refuses_a_value_no_string_literal_can_carry_tab() {
    refuses_a_value("before\tafter");
}

#[test]
fn test_rulegen_keeps_whitespace_around_a_value() {
    let (rules, _) =
        generate(r#"{"Resources": {"B": {"Type": "T", "Properties": {"N": "  padded  "}}}}"#);

    assert!(
        rules.contains(r#"%t_resources.Properties.N == "  padded  ""#),
        "{}",
        rules
    );
}

#[test]
fn test_rulegen_refuses_a_clause_no_boolean_value_can_fail() {
    let template = r#"
        {
            "Resources": {
                "VolA": { "Type": "AWS::EC2::Volume", "Properties": { "Encrypted": true } },
                "VolB": { "Type": "AWS::EC2::Volume", "Properties": { "Encrypted": false } }
            }
        }
        "#;

    let (rules, status) = generate(template);

    assert_eq!(ERROR_STATUS_CODE, status, "{}", rules);
    assert!(warnings_for(template).contains("a clause no boolean value can fail"));
}

#[test]
fn test_rulegen_still_writes_a_non_boolean_in_clause() {
    let template = r#"
        {
            "Resources": {
                "VolA": { "Type": "AWS::EC2::Volume", "Properties": { "Size": 500 } },
                "VolB": { "Type": "AWS::EC2::Volume", "Properties": { "Size": 50 } }
            }
        }
        "#;

    let (rules, status) = generate(template);

    assert_eq!(SUCCESS_STATUS_CODE, status);
    assert!(
        rules.contains("%aws_ec2_volume_resources.Properties.Size IN [50, 500]"),
        "{}",
        rules
    );
}

#[test]
fn test_rulegen_refuses_a_property_only_some_resources_of_the_type_carry() {
    let template = r#"
        {
            "Resources": {
                "One": { "Type": "T", "Properties": { "Shared": 1, "OnlyHere": 2 } },
                "Two": { "Type": "T", "Properties": { "Shared": 1 } }
            }
        }
        "#;

    let (rules, status) = generate(template);

    assert_eq!(SUCCESS_STATUS_CODE, status);
    assert!(rules.contains("%t_resources.Properties.Shared == 1"), "{}", rules);
    assert!(!rules.contains("OnlyHere == 2"), "{}", rules);
    assert!(warnings_for(template).contains("only 1 of the 2 resources of this type carry it"));
}

#[test]
fn test_rulegen_counts_a_resource_with_no_properties_toward_its_type() {
    let template = r#"
        {
            "Resources": {
                "One": { "Type": "T", "Properties": { "P": 1 } },
                "Two": { "Type": "T" }
            }
        }
        "#;

    let (_, status) = generate(template);

    assert_eq!(ERROR_STATUS_CODE, status);
    assert!(warnings_for(template).contains("only 1 of the 2 resources of this type carry it"));
}

fn refuses_to_report_success(template: &str) {
    let (rules, status) = generate(template);

    assert_eq!(ERROR_STATUS_CODE, status);
    assert_eq!("", rules);
    assert!(warnings_for(template).contains("No rules were generated from this template"));
}

#[test]
fn test_rulegen_refuses_to_report_success_having_generated_no_rules_no_resources_at_all() {
    refuses_to_report_success(r#"{"Resources": {}}"#);
}

#[test]
fn test_rulegen_refuses_to_report_success_having_generated_no_rules_no_properties() {
    refuses_to_report_success(r#"{"Resources": {"B": {"Type": "T"}}}"#);
}

#[test]
fn test_rulegen_refuses_to_report_success_having_generated_no_rules_every_property_refused() {
    refuses_to_report_success(r#"{"Resources": {"B": {"Type": "T", "Properties": {"S": "a\nb"}}}}"#);
}

#[test]
fn test_rulegen_output_is_deterministic() {
    let template = r#"
        {
            "Resources": {
                "Vol": {
                    "Type": "AWS::EC2::Volume",
                    "Properties": { "Size": 500, "Encrypted": false, "Zone": "us-west-2b" }
                },
                "VolTwo": {
                    "Type": "AWS::EC2::Volume",
                    "Properties": { "Size": 50, "Encrypted": false, "Zone": "us-west-2c" }
                },
                "Bucket": {
                    "Type": "AWS::S3::Bucket",
                    "Properties": { "Name": "b", "Versioning": { "Status": "Enabled" } }
                }
            }
        }
        "#;

    let (first, _) = generate(template);

    for _ in 0..16 {
        let (again, _) = generate(template);
        assert_eq!(first, again);
    }

    assert_eq!(
        "\
let aws_ec2_volume_resources = Resources.*[ Type == 'AWS::EC2::Volume' ]
rule aws_ec2_volume when %aws_ec2_volume_resources !empty {
  %aws_ec2_volume_resources.Properties.Encrypted == false
  %aws_ec2_volume_resources.Properties.Size IN [50, 500]
  %aws_ec2_volume_resources.Properties.Zone IN [\"us-west-2b\", \"us-west-2c\"]
}
let aws_s3_bucket_resources = Resources.*[ Type == 'AWS::S3::Bucket' ]
rule aws_s3_bucket when %aws_s3_bucket_resources !empty {
  %aws_s3_bucket_resources.Properties.Name == \"b\"
  %aws_s3_bucket_resources.Properties.Versioning == {\"Status\":\"Enabled\"}
}
",
        first
    );
}

#[test]
fn test_rulegen_records_an_omission_in_the_generated_file() {
    let (rules, status) = generate(
        r#"{"Resources": {"B": {"Type": "T", "Properties": {"Kept": 1, "Script": "a\nb"}}}}"#,
    );

    assert_eq!(SUCCESS_STATUS_CODE, status);
    assert!(rules.contains("%t_resources.Properties.Kept == 1"), "{}", rules);
    assert!(rules.contains("  # no check generated for T.Properties.Script:"), "{}", rules);
}

#[test]
fn parse_template_and_call_gen_writes_each_warning_on_a_line() {
    let template = r#"{"Resources": {"B": {"Type": "T", "Properties": {"Kept": 1, "Script": "a\nb"}}}}"#;
    let mut writer = Writer::new_with_err(WriteBuffer::Vec(vec![]), WriteBuffer::Vec(vec![]));
    rulegen::parse_template_and_call_gen(&load(template), &mut writer).unwrap();
    let written = writer.err_from_utf8().unwrap();
    assert!(written.starts_with("Warning: no check generated for T.Properties.Script:"), "{}", written);
    assert!(written.ends_with('\n'));
    assert_eq!(1, written.lines().count());
}

#[test]
fn a_template_without_resources_is_refused() {
    let err = rulegen::generate(&load(r#"{"Other": {}}"#)).err().unwrap();
    assert_eq!("Template lacks a Resources section", err.message());
    let err = rulegen::generate(&load(r#"{"Resources": [1, 2]}"#)).err().unwrap();
    assert_eq!(
        "Template Resources section has an invalid structure: it is not a mapping of logical id to resource",
        err.message()
    );
}

#[test]
fn value_to_guard_renders_each_kind() {
    assert_eq!(Ok(String::from("null")), rulegen::value_to_guard(&Value::Null));
    assert_eq!(Ok(String::from("true")), rulegen::value_to_guard(&Value::Bool(true)));
    assert_eq!(Ok(String::from("-12")), rulegen::value_to_guard(&Value::Int(-12)));
    assert_eq!(
        Ok(String::from("2.0")),
        rulegen::value_to_guard(&Value::Float(Some(String::from("2.0"))))
    );
    assert!(rulegen::value_to_guard(&Value::Float(None)).is_err());
    assert_eq!(
        Ok(String::from("[1,\"a\"]")),
        rulegen::value_to_guard(&Value::List(vec![Value::Int(1), Value::String(String::from("a"))]))
    );
    assert!(rulegen::value_to_guard(&Value::Char('x')).is_err());
}

#[test]
fn template_entry_count_counts_the_properties_of_typed_resources() {
    let template = load(
        r#"
        Resources:
          A:
            Type: AWS::S3::Bucket
            Properties:
              BucketName: a
              Tags: []
          B:
            Properties:
              Ignored: 1
          C:
            Type: AWS::SQS::Queue
            Properties:
              DelaySeconds: 5
          D:
            Type: AWS::SNS::Topic
        "#,
    );
    assert_eq!(3, rulegen::template_entry_count(&template));
}

#[test]
fn template_entry_count_is_zero_without_a_resources_mapping() {
    assert_eq!(0, rulegen::template_entry_count(&load("Parameters: {}")));
    assert_eq!(0, rulegen::template_entry_count(&load("Resources: [1, 2]")));
    assert_eq!(0, rulegen::template_entry_count(&Value::Null));
}

#[test]
fn report_sorts_the_omissions_before_writing_their_warnings() {
    let omissions = vec![
        cfn_guard::commands::rule_map::Omission::Property {
            resource_type: String::from("T"),
            name: String::from("b"),
            reason: String::from("r1"),
        },
        cfn_guard::commands::rule_map::Omission::Resource {
            name: String::from("n"),
            reason: String::from("r2"),
        },
        cfn_guard::commands::rule_map::Omission::Property {
            resource_type: String::from("T"),
            name: String::from("a"),
            reason: String::from("r3"),
        },
    ];
    assert_eq!(
        vec![
            String::from("Warning: no check generated for resource n: r2"),
            String::from("Warning: no check generated for T.Properties.a: r3"),
            String::from("Warning: no check generated for T.Properties.b: r1"),
        ],
        cfn_guard::commands::rule_text::report(&omissions)
    );
}

#[test]
fn emit_clause_takes_its_values_as_a_sorted_set() {
    let both = vec![String::from("true"), String::from("false")];
    assert!(cfn_guard::commands::rule_text::emit_clause("v", "P", &both).is_err());
    let some = vec![String::from("\"b\""), String::from("\"a\""), String::from("\"b\"")];
    assert_eq!(
        Ok(String::from("  %v.Properties.P IN [\"a\", \"b\"]\n")),
        cfn_guard::commands::rule_text::emit_clause("v", "P", &some)
    );
}

#[test]
fn short_form_intrinsics_read_as_their_long_form_keys() {
    assert_eq!(rulegen::intrinsic_key("!GetAtt"), "Fn::GetAtt");
    assert_eq!(rulegen::intrinsic_key("!Ref"), "Ref");
    assert_eq!(rulegen::intrinsic_key("!Condition"), "Condition");
    assert_eq!(rulegen::intrinsic_key("Sub"), "Fn::Sub");
    match rulegen::short_form_intrinsic("!Ref", Value::String(String::from("Bucket"))) {
        Value::Mapping(m) => {
            assert_eq!(m.len(), 1);
            assert_eq!(m[0].0, "Ref");
            assert!(matches!(&m[0].1, Value::String(s) if s == "Bucket"));
        }
        _ => panic!("a short-form intrinsic reads as a mapping"),
    }
}
