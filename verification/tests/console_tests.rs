use cfn_guard::commands::console::{
    context_start_line, emit_messages, is_whitespace, print_compliant_skipped_info, print_rules_output,
    print_skipped_rules_output, shortened, trim, LONGEST_CLAUSE_EXPLANATION,
};
use cfn_guard::commands::validate::{
    has_a_supported_extension, Type, DATA_FILE_SUPPORTED_EXTENSIONS, RULE_FILE_SUPPORTED_EXTENSIONS,
};

#[test]
fn does_not_underflow_at_or_below_line_two() {
    assert_eq!(1, context_start_line(0));
    assert_eq!(1, context_start_line(1));
    assert_eq!(1, context_start_line(2));
}

#[test]
fn keeps_two_lines_of_context_above_the_violation() {
    assert_eq!(1, context_start_line(3));
    assert_eq!(3, context_start_line(5));
    assert_eq!(98, context_start_line(100));
}

#[test]
fn never_returns_zero() {
    for line in 0..16usize {
        assert!(
            context_start_line(line) >= 1,
            "context_start_line({}) returned 0, which is not a valid 1-based line",
            line
        );
    }
}

#[test]
fn leaves_a_message_that_fits_alone() {
    let message = "Check was not compliant as property [Name] is missing.";
    assert_eq!(message, shortened(message));
}

#[test]
fn drops_an_embedded_document_whole() {
    let document = format!(r#"{{"Resources":{{"{}":{{}}}}}}"#, "A".repeat(400));
    let message = format!("Property [Name] is missing. Value traversed to [{document}]");

    let short = shortened(&message);

    assert!(
        short.starts_with("Property [Name] is missing. Value traversed to"),
        "the sentence naming the property survives: {}",
        short
    );
    assert!(!short.contains("AAAA"), "and none of the document does: {}", short);
}

#[test]
fn does_not_split_a_multi_byte_character() {
    let message = "é".repeat(LONGEST_CLAUSE_EXPLANATION * 2);

    let short = shortened(&message);

    assert!(short.ends_with("..."), "it was truncated: {}", short);
    assert!(
        short.chars().filter(|c| *c == 'é').count() <= LONGEST_CLAUSE_EXPLANATION,
        "to no more than the cap in characters: {}",
        short
    );
}

#[test]
fn still_bounds_a_message_that_is_one_word() {
    let short = shortened(&"x".repeat(LONGEST_CLAUSE_EXPLANATION * 3));

    assert_eq!(LONGEST_CLAUSE_EXPLANATION + 3, short.len());
}

#[test]
fn a_cut_drops_trailing_whitespace_before_the_dots() {
    let message = format!("{}   {}", "a".repeat(200), "b".repeat(100));
    assert_eq!(format!("{}...", "a".repeat(200)), shortened(&message));
    let exact = "c".repeat(LONGEST_CLAUSE_EXPLANATION);
    assert_eq!(exact, shortened(&exact));
}

#[test]
fn whitespace_is_the_unicode_white_space_property() {
    for c in (0u32..=0x10FFFF).filter_map(char::from_u32) {
        assert_eq!(c.is_whitespace(), is_whitespace(c), "{:?}", c);
    }
}

#[test]
fn test_supported_extensions() {
    // Data extensions
    assert!(has_a_supported_extension("blah.json", &DATA_FILE_SUPPORTED_EXTENSIONS));
    assert!(has_a_supported_extension("blah.jsn", &DATA_FILE_SUPPORTED_EXTENSIONS));
    assert!(has_a_supported_extension("blah.yaml", &DATA_FILE_SUPPORTED_EXTENSIONS));
    assert!(has_a_supported_extension("blah.template", &DATA_FILE_SUPPORTED_EXTENSIONS));
    assert!(has_a_supported_extension("blah.yml", &DATA_FILE_SUPPORTED_EXTENSIONS));
    // unsupported
    assert!(!has_a_supported_extension("blah.txt", &DATA_FILE_SUPPORTED_EXTENSIONS));
    assert!(!has_a_supported_extension("blah", &DATA_FILE_SUPPORTED_EXTENSIONS));

    // Rules extensions
    assert!(has_a_supported_extension("blah.guard", &RULE_FILE_SUPPORTED_EXTENSIONS));
    assert!(has_a_supported_extension("blah.ruleset", &RULE_FILE_SUPPORTED_EXTENSIONS));
    // unsupported
    assert!(!has_a_supported_extension("blah.txt", &RULE_FILE_SUPPORTED_EXTENSIONS));
    assert!(!has_a_supported_extension("blah", &RULE_FILE_SUPPORTED_EXTENSIONS));
}

#[test]
fn the_data_type_is_named() {
    assert_eq!(Type::CFNTemplate, Type::from_name("CFNTemplate"));
    assert_eq!(Type::Generic, Type::from_name("cfn"));
}

#[test]
fn compliant_rules_are_listed_once_in_sorted_order() {
    let rules = vec![String::from("zeta"), String::from("alpha"), String::from("zeta")];
    assert_eq!(
        "--\nRule [alpha] is compliant for template [t.yaml]\nRule [zeta] is compliant for template [t.yaml]\n",
        print_rules_output(&rules, "compliant", "t.yaml")
    );
    assert_eq!("", print_rules_output(&vec![], "compliant", "t.yaml"));
}

#[test]
fn skipped_rules_carry_their_reasons() {
    let rules = vec![
        (String::from("b_rule"), None),
        (String::from("a_rule"), Some(String::from("no resources of the type"))),
    ];
    assert_eq!(
        "--\nRule [a_rule] is not applicable for template [t.yaml]\n  no resources of the type\nRule [b_rule] is not applicable for template [t.yaml]\n",
        print_skipped_rules_output(&rules, "t.yaml")
    );
    assert_eq!("", print_skipped_rules_output(&vec![], "t.yaml"));
}

#[test]
fn trim_takes_whitespace_off_both_ends_only() {
    assert_eq!("a b", trim("  a b \t\n"));
    assert_eq!("", trim(" \u{3000} "));
    assert_eq!("x", trim("x"));
    for s in ["", "  a ", "\u{2009}b\u{85}", "c\u{a0}d"] {
        assert_eq!(s.trim(), trim(s));
    }
}

#[test]
fn a_single_message_and_an_error_are_one_line_each() {
    assert_eq!(
        "    Message    = must be encrypted\n    Error      = boom\n",
        emit_messages("    ", "  must be encrypted ", "boom", 10)
    );
}

#[test]
fn a_message_of_several_pieces_is_a_block() {
    assert_eq!(
        ">Message {\n>  first\n>  second\n>}\n",
        emit_messages(">", "first; ;second ;", "", 0)
    );
    assert_eq!(
        "Message {\n  one\n  two\n}\n",
        emit_messages("", "one\ntwo", "", 3)
    );
}

#[test]
fn semicolons_split_before_line_breaks() {
    assert_eq!(
        "Message {\n  a\nb\n  c\n}\n",
        emit_messages("", "a\nb;c", "", 0)
    );
}

#[test]
fn empty_message_and_error_print_nothing() {
    assert_eq!("", emit_messages("  ", "", "", 20));
    assert_eq!("Error = e\n", emit_messages("", "", "e", 0));
}

#[test]
fn compliant_and_skipped_rules_are_listed_after_a_separator() {
    let passed = vec![String::from("a"), String::from("b")];
    let skipped = vec![String::from("c")];
    assert_eq!(
        "--\nRule [r.guard/a] is compliant for template [t.yaml]\nRule [r.guard/b] is compliant for template [t.yaml]\n--\nRule [r.guard/c] is not applicable for template [t.yaml]\n",
        print_compliant_skipped_info(&passed, &skipped, "r.guard", "t.yaml")
    );
    assert_eq!("", print_compliant_skipped_info(&vec![], &vec![], "r.guard", "t.yaml"));
}
