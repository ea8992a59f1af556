//! What the single-line summary says of each failing clause of a rule: a retrieval error, a
//! parameterized rule that failed, or a comparison that did not hold.
use vstd::prelude::*;

use crate::commands::console::{compliant_skipped_text, print_compliant_skipped_info};
use crate::commands::console_tree::{ClauseCheck, DataValue, EventRecord, QueryResult};
use crate::commands::reporting::{RecordType, Status};
use crate::text::{join, join_strings, push_char, push_str, string_of, views};

verus! {

/// How a clause compares a value.
#[derive(Clone, Copy, Debug, PartialEq, Eq, Structural)]
pub enum CmpOperator {
    Eq,
    In,
    Gt,
    Lt,
    Le,
    Ge,
    Exists,
    Empty,
    IsList,
    IsMap,
    IsString,
    IsBool,
    IsInt,
    IsFloat,
}

/// The comparison a failing clause made, and whether it was negated.
#[derive(Clone, Copy, Debug, PartialEq, Eq, Structural)]
pub struct Comparison {
    pub operator: CmpOperator,
    pub not_operator_exists: bool,
}

/// What a report knows of one failing clause. The values are held as the JSON text they print
/// as.
pub struct NameInfo {
    /// The rule the clause belongs to.
    pub rule: String,
    /// Where in the data the clause looked.
    pub path: String,
    /// The value found there, as JSON text.
    pub provided: Option<String>,
    /// The value it was compared with, as JSON text.
    pub expected: Option<String>,
    pub comparison: Option<Comparison>,
    /// The rule author's message.
    pub message: String,
    /// Why the value could not be retrieved, when it could not.
    pub error: Option<String>,
}

/// Whether `op` looks at one value rather than comparing two.
pub open spec fn is_unary(op: CmpOperator) -> bool {
    match op {
        CmpOperator::Eq | CmpOperator::In | CmpOperator::Gt | CmpOperator::Lt | CmpOperator::Le
        | CmpOperator::Ge => false,
        _ => true,
    }
}

/// What a failed one-value check says happened, by its operator and whether it was negated.
pub open spec fn unary_verdict(op: CmpOperator, not: bool) -> Seq<char> {
    match op {
        CmpOperator::Exists => if !not { "did not exist"@ } else { "existed"@ },
        CmpOperator::Empty => if !not { "was not empty"@ } else { "was empty"@ },
        CmpOperator::IsList => if !not { "was not a list "@ } else { "was list"@ },
        CmpOperator::IsMap => if !not { "was not a struct"@ } else { "was struct"@ },
        CmpOperator::IsString => if !not { "was not a string "@ } else { "was string"@ },
        CmpOperator::IsBool => if !not { "was not a bool"@ } else { "was bool"@ },
        CmpOperator::IsInt => if !not { "was not an int"@ } else { "was int"@ },
        _ => if !not { "was not a float"@ } else { "was float"@ },
    }
}

/// `s` with every line break replaced by `with`.
pub open spec fn newlines_replaced(s: Seq<char>, with: Seq<char>) -> Seq<char>
    decreases s.len(),
{
    if s.len() == 0 {
        Seq::empty()
    } else {
        newlines_replaced(s.drop_last(), with) + if s.last() == '\n' {
            with
        } else {
            seq![s.last()]
        }
    }
}

/// A value as the report prints it: its JSON text, or `null` when there is none.
pub open spec fn json_or_null(v: Option<String>) -> Seq<char> {
    match v {
        Some(t) => t@,
        None => "null"@,
    }
}

/// The sentence for a clause whose value could not be retrieved.
pub open spec fn retrieval_text(rules_file: Seq<char>, data_file: Seq<char>, info: NameInfo) -> Seq<
    char,
> {
    "Property traversed until ["@ + info.path@ + "] in data ["@ + data_file
        + "] is not compliant with ["@ + rules_file + "/"@ + info.rule@
        + "] due to retrieval error. Error Message ["@ + match info.error {
        Some(e) => e@,
        None => Seq::empty(),
    } + "]"@
}

/// The sentence for a failed one-value check; `op_msg` says what happened.
pub open spec fn unary_text(
    rules_file: Seq<char>,
    data_file: Seq<char>,
    op_msg: Seq<char>,
    info: NameInfo,
) -> Seq<char> {
    "Property ["@ + info.path@ + "] in data ["@ + data_file + "] is not compliant with ["@
        + rules_file + "/"@ + info.rule@ + "] because needed value at ["@ + json_or_null(
        info.provided,
    ) + "] "@ + op_msg + ". Error Message ["@ + newlines_replaced(info.message@, ";"@) + "]"@
}

/// How a failed comparison names what it was compared with.
pub open spec fn comparison_text(c: Option<Comparison>) -> Seq<char> {
    match c {
        Some(c) => if c.operator == CmpOperator::In {
            "match expected value in"@
        } else {
            "match expected value"@
        },
        None => Seq::empty(),
    }
}

/// The sentence for a failed comparison of two values; `op_msg` is `did` or `did not`.
pub open spec fn binary_text(
    rules_file: Seq<char>,
    data_file: Seq<char>,
    op_msg: Seq<char>,
    info: NameInfo,
) -> Seq<char> {
    "Property ["@ + info.path@ + "] in data ["@ + data_file + "] is not compliant with ["@
        + rules_file + "/"@ + info.rule@ + "] because provided value ["@ + json_or_null(
        info.provided,
    ) + "] "@ + op_msg + " "@ + comparison_text(info.comparison) + " ["@ + json_or_null(
        info.expected,
    ) + "]. Error Message ["@ + newlines_replaced(info.message@, ";"@) + "]"@
}

/// The line for a parameterized rule that failed: a clause with no comparison.
pub open spec fn parameterized_text(rules_file: Seq<char>, data_file: Seq<char>, info: NameInfo) -> Seq<
    char,
> {
    "Parameterized Rule "@ + rules_file + "/"@ + info.rule@ + " failed for "@ + data_file
        + ". Reason "@ + newlines_replaced(info.message@, "; "@)
}

/// The line a report prints for one failing clause.
pub open spec fn name_info_line(rules_file: Seq<char>, data_file: Seq<char>, info: NameInfo) -> Seq<
    char,
> {
    match info.error {
        Some(_) => retrieval_text(rules_file, data_file, info),
        None => match info.comparison {
            None => parameterized_text(rules_file, data_file, info),
            Some(c) => if is_unary(c.operator) {
                unary_text(
                    rules_file,
                    data_file,
                    unary_verdict(c.operator, c.not_operator_exists),
                    info,
                )
            } else {
                binary_text(
                    rules_file,
                    data_file,
                    if c.not_operator_exists {
                        "did"@
                    } else {
                        "did not"@
                    },
                    info,
                )
            },
        },
    }
}

/// The lines for `infos`, each ended by a line break.
pub open spec fn name_info_text(rules_file: Seq<char>, data_file: Seq<char>, infos: Seq<NameInfo>) -> Seq<
    char,
>
    decreases infos.len(),
{
    if infos.len() == 0 {
        Seq::empty()
    } else {
        name_info_text(rules_file, data_file, infos.drop_last()) + name_info_line(
            rules_file,
            data_file,
            infos.last(),
        ) + "\n"@
    }
}

/// Appends `s` with every line break replaced by `with`.
pub(crate) fn push_newlines_replaced(out: &mut String, s: &str, with: &str)
    ensures
        final(out)@ == old(out)@ + newlines_replaced(s@, with@),
{
    let ghost start = out@;
    let cs = crate::text::chars_of(s);
    let mut i: usize = 0;
    while i < cs.len()
        invariant
            cs@ == s@,
            i <= cs@.len(),
            out@ == start + newlines_replaced(s@.take(i as int), with@),
        decreases cs.len() - i,
    {
        assert(s@.take(i + 1).drop_last() =~= s@.take(i as int));
        assert(s@.take(i + 1).last() == cs@[i as int]);
        if cs[i] == '\n' {
            push_str(out, with);
        } else {
            let ghost before = out@;
            push_char(out, cs[i]);
            assert(out@ =~= before + seq![cs@[i as int]]);
        }
        i += 1;
    }
    assert(s@.take(i as int) =~= s@);
}

/// Appends a value's JSON text, or `null`.
fn push_json_or_null(out: &mut String, v: &Option<String>)
    ensures
        final(out)@ == old(out)@ + json_or_null(*v),
{
    match v {
        Some(t) => push_str(out, t.as_str()),
        None => push_str(out, "null"),
    }
}

/// What a failed one-value check says happened.
fn unary_verdict_of(op: CmpOperator, not: bool) -> (r: &'static str)
    ensures
        r@ == unary_verdict(op, not),
{
    match op {
        CmpOperator::Exists => if !not { "did not exist" } else { "existed" },
        CmpOperator::Empty => if !not { "was not empty" } else { "was empty" },
        CmpOperator::IsList => if !not { "was not a list " } else { "was list" },
        CmpOperator::IsMap => if !not { "was not a struct" } else { "was struct" },
        CmpOperator::IsString => if !not { "was not a string " } else { "was string" },
        CmpOperator::IsBool => if !not { "was not a bool" } else { "was bool" },
        CmpOperator::IsInt => if !not { "was not an int" } else { "was int" },
        _ => if !not { "was not a float" } else { "was float" },
    }
}

/// The sentence for a clause whose value could not be retrieved (see [`retrieval_text`]).
pub fn retrieval_error_message(rules_file: &str, data_file: &str, info: &NameInfo) -> (r: String)
    ensures
        r@ == retrieval_text(rules_file@, data_file@, *info),
{
    let mut m = string_of("Property traversed until [");
    push_str(&mut m, info.path.as_str());
    push_str(&mut m, "] in data [");
    push_str(&mut m, data_file);
    push_str(&mut m, "] is not compliant with [");
    push_str(&mut m, rules_file);
    push_str(&mut m, "/");
    push_str(&mut m, info.rule.as_str());
    push_str(&mut m, "] due to retrieval error. Error Message [");
    match &info.error {
        Some(e) => push_str(&mut m, e.as_str()),
        None => {},
    }
    push_str(&mut m, "]");
    assert(m@ =~= retrieval_text(rules_file@, data_file@, *info));
    m
}

/// The sentence for a failed one-value check (see [`unary_text`]).
pub fn unary_error_message(rules_file: &str, data_file: &str, op_msg: &str, info: &NameInfo) -> (r:
    String)
    ensures
        r@ == unary_text(rules_file@, data_file@, op_msg@, *info),
{
    let mut m = string_of("Property [");
    push_str(&mut m, info.path.as_str());
    push_str(&mut m, "] in data [");
    push_str(&mut m, data_file);
    push_str(&mut m, "] is not compliant with [");
    push_str(&mut m, rules_file);
    push_str(&mut m, "/");
    push_str(&mut m, info.rule.as_str());
    push_str(&mut m, "] because needed value at [");
    push_json_or_null(&mut m, &info.provided);
    push_str(&mut m, "] ");
    push_str(&mut m, op_msg);
    push_str(&mut m, ". Error Message [");
    push_newlines_replaced(&mut m, info.message.as_str(), ";");
    push_str(&mut m, "]");
    assert(m@ =~= unary_text(rules_file@, data_file@, op_msg@, *info));
    m
}

/// The sentence for a failed comparison of two values (see [`binary_text`]).
pub fn binary_error_message(rules_file: &str, data_file: &str, op_msg: &str, info: &NameInfo) -> (r:
    String)
    ensures
        r@ == binary_text(rules_file@, data_file@, op_msg@, *info),
{
    let mut m = string_of("Property [");
    push_str(&mut m, info.path.as_str());
    push_str(&mut m, "] in data [");
    push_str(&mut m, data_file);
    push_str(&mut m, "] is not compliant with [");
    push_str(&mut m, rules_file);
    push_str(&mut m, "/");
    push_str(&mut m, info.rule.as_str());
    push_str(&mut m, "] because provided value [");
    push_json_or_null(&mut m, &info.provided);
    push_str(&mut m, "] ");
    push_str(&mut m, op_msg);
    push_str(&mut m, " ");
    match &info.comparison {
        Some(c) => if c.operator == CmpOperator::In {
            push_str(&mut m, "match expected value in");
        } else {
            push_str(&mut m, "match expected value");
        },
        None => {},
    }
    push_str(&mut m, " [");
    push_json_or_null(&mut m, &info.expected);
    push_str(&mut m, "]. Error Message [");
    push_newlines_replaced(&mut m, info.message.as_str(), ";");
    push_str(&mut m, "]");
    assert(m@ =~= binary_text(rules_file@, data_file@, op_msg@, *info));
    m
}

/// The line for one failing clause (see [`name_info_line`]).
fn name_info_message(rules_file: &str, data_file: &str, info: &NameInfo) -> (r: String)
    ensures
        r@ == name_info_line(rules_file@, data_file@, *info),
{
    if info.error.is_some() {
        return retrieval_error_message(rules_file, data_file, info);
    }
    match &info.comparison {
        None => {
            let mut m = string_of("Parameterized Rule ");
            push_str(&mut m, rules_file);
            push_str(&mut m, "/");
            push_str(&mut m, info.rule.as_str());
            push_str(&mut m, " failed for ");
            push_str(&mut m, data_file);
            push_str(&mut m, ". Reason ");
            push_newlines_replaced(&mut m, info.message.as_str(), "; ");
            assert(m@ =~= parameterized_text(rules_file@, data_file@, *info));
            m
        },
        Some(c) => {
            let unary = match c.operator {
                CmpOperator::Eq | CmpOperator::In | CmpOperator::Gt | CmpOperator::Lt
                | CmpOperator::Le | CmpOperator::Ge => false,
                _ => true,
            };
            if unary {
                unary_error_message(
                    rules_file,
                    data_file,
                    unary_verdict_of(c.operator, c.not_operator_exists),
                    info,
                )
            } else {
                let op_msg = if c.not_operator_exists {
                    "did"
                } else {
                    "did not"
                };
                binary_error_message(rules_file, data_file, op_msg, info)
            }
        },
    }
}

/// What the single-line summary prints for the failing clauses `infos` of a rule, one line each
/// in order (see [`name_info_line`]).
pub fn print_name_info(infos: &Vec<NameInfo>, rules_file_name: &str, data_file_name: &str) -> (r:
    String)
    ensures
        r@ == name_info_text(rules_file_name@, data_file_name@, infos@),
{
    let mut out = String::new();
    let mut i: usize = 0;
    while i < infos.len()
        invariant
            i <= infos@.len(),
            out@ == name_info_text(rules_file_name@, data_file_name@, infos@.take(i as int)),
        decreases infos.len() - i,
    {
        assert(infos@.take(i + 1).drop_last() =~= infos@.take(i as int));
        assert(infos@.take(i + 1).last() == infos@[i as int]);
        let line = name_info_message(rules_file_name, data_file_name, &infos[i]);
        push_str(&mut out, line.as_str());
        push_str(&mut out, "\n");
        i += 1;
    }
    assert(infos@.take(i as int) =~= infos@);
    out
}


/// The failing clauses of each rule in `failed`, rule after rule.
pub open spec fn failed_rules_text(
    rules_file: Seq<char>,
    data_file: Seq<char>,
    failed: Seq<(String, Vec<NameInfo>)>,
) -> Seq<char>
    decreases failed.len(),
{
    if failed.len() == 0 {
        Seq::empty()
    } else {
        failed_rules_text(rules_file, data_file, failed.drop_last()) + name_info_text(
            rules_file,
            data_file,
            failed.last().1@,
        )
    }
}

/// The single-line summary of one rules file against one data file: a heading, the failing
/// clauses of each failed rule after a `--` line when a rule failed, the rules that passed and
/// those that did not apply, and a closing `--` line.
pub open spec fn single_line_summary_text(
    rules_file: Seq<char>,
    data_file: Seq<char>,
    failed: Seq<(String, Vec<NameInfo>)>,
    passed: Seq<Seq<char>>,
    skipped: Seq<Seq<char>>,
) -> Seq<char> {
    "Evaluation of rules "@ + rules_file + " against data "@ + data_file + "\n"@ + (if failed.len()
        > 0 {
        "--\n"@
    } else {
        Seq::empty()
    }) + failed_rules_text(rules_file, data_file, failed) + compliant_skipped_text(
        passed,
        skipped,
        rules_file,
        data_file,
    ) + "--\n"@
}

/// The single-line summary (see [`single_line_summary_text`]); the failed rules, those that
/// passed and those that did not apply come in the order the caller walked its sets.
pub fn single_line_summary(
    failed: &Vec<(String, Vec<NameInfo>)>,
    passed: &Vec<String>,
    skipped: &Vec<String>,
    rules_file_name: &str,
    data_file_name: &str,
) -> (r: String)
    ensures
        r@ == single_line_summary_text(
            rules_file_name@,
            data_file_name@,
            failed@,
            views(passed@),
            views(skipped@),
        ),
{
    let mut out = string_of("Evaluation of rules ");
    push_str(&mut out, rules_file_name);
    push_str(&mut out, " against data ");
    push_str(&mut out, data_file_name);
    push_str(&mut out, "\n");
    if failed.len() > 0 {
        push_str(&mut out, "--\n");
    }
    let ghost head = out@;
    let mut i: usize = 0;
    while i < failed.len()
        invariant
            i <= failed@.len(),
            out@ == head + failed_rules_text(rules_file_name@, data_file_name@, failed@.take(i as int)),
        decreases failed.len() - i,
    {
        assert(failed@.take(i + 1).drop_last() =~= failed@.take(i as int));
        assert(failed@.take(i + 1).last() == failed@[i as int]);
        let lines = print_name_info(&failed[i].1, rules_file_name, data_file_name);
        push_str(&mut out, lines.as_str());
        i += 1;
    }
    assert(failed@.take(i as int) =~= failed@);
    let rest = print_compliant_skipped_info(passed, skipped, rules_file_name, data_file_name);
    push_str(&mut out, rest.as_str());
    push_str(&mut out, "--\n");
    assert(out@ =~= single_line_summary_text(
        rules_file_name@,
        data_file_name@,
        failed@,
        views(passed@),
        views(skipped@),
    ));
    out
}

/// What a [`NameInfo`] holds, as character sequences.
pub struct NameInfoView {
    pub rule: Seq<char>,
    pub path: Seq<char>,
    pub provided: Option<Seq<char>>,
    pub expected: Option<Seq<char>>,
    pub comparison: Option<Comparison>,
    pub message: Seq<char>,
    pub error: Option<Seq<char>>,
}

/// The characters of `o`, if it has any.
pub open spec fn opt_view(o: Option<String>) -> Option<Seq<char>> {
    match o {
        Some(t) => Some(t@),
        None => None,
    }
}

/// The characters of `o`, empty when there is none.
pub open spec fn or_empty(o: Option<String>) -> Seq<char> {
    match o {
        Some(t) => t@,
        None => Seq::empty(),
    }
}

impl View for NameInfo {
    type V = NameInfoView;

    open spec fn view(&self) -> NameInfoView {
        NameInfoView {
            rule: self.rule@,
            path: self.path@,
            provided: opt_view(self.provided),
            expected: opt_view(self.expected),
            comparison: self.comparison,
            message: self.message@,
            error: opt_view(self.error),
        }
    }
}

/// What a report knows of a clause for `rule` before it looks at the clause: nothing.
pub open spec fn blank_info(rule: Seq<char>) -> NameInfoView {
    NameInfoView {
        rule,
        path: Seq::empty(),
        provided: None,
        expected: None,
        comparison: None,
        message: Seq::empty(),
        error: None,
    }
}

/// The JSON text of what a query came to: the value, or the last value it reached.
pub open spec fn query_json(q: QueryResult) -> Seq<char> {
    match q {
        QueryResult::Literal(v) => v.json@,
        QueryResult::Resolved(v) => v.json@,
        QueryResult::UnResolved(u) => u.traversed_to.json@,
    }
}

/// The JSON text of a list of what queries came to.
pub open spec fn json_array(to: Seq<QueryResult>) -> Seq<char> {
    "["@ + join(to.map_values(|q: QueryResult| query_json(q)), ","@) + "]"@
}

/// What a report says of a clause whose value was found: where and what it was.
pub open spec fn found(info: NameInfoView, v: DataValue) -> NameInfoView {
    NameInfoView { path: v.path@, provided: Some(v.json@), ..info }
}

/// Whether a report can say what failed in `rec`: a failing rule that carries a message, or a
/// clause that made its check, whose compared value, and what it was compared with, are not
/// literals of the rule.
pub open spec fn extractable(rec: EventRecord) -> bool {
    match rec.container {
        Some(RecordType::RuleCheck(ns)) => ns.message is Some,
        Some(RecordType::ClauseValueCheck(check)) => match check {
            ClauseCheck::Success => false,
            ClauseCheck::Unary(u) => !(u.value.from is Literal),
            ClauseCheck::Comparison(c) => match c.from {
                QueryResult::Literal(_) => false,
                QueryResult::Resolved(_) => !(c.to matches Some(QueryResult::Literal(_))),
                QueryResult::UnResolved(_) => true,
            },
            _ => true,
        },
        _ => false,
    }
}

/// What a report says of the failing record `rec` of the rule `rule_name`: a rule's own message,
/// or for a clause its operator, the value it found and where, what that was compared with, the
/// author's message, and why the check could not be made.
pub open spec fn record_name_info(rule_name: Seq<char>, rec: EventRecord) -> NameInfoView {
    let blank = blank_info(rule_name);
    match rec.container {
        Some(RecordType::RuleCheck(ns)) => NameInfoView {
            message: or_empty(ns.message),
            ..blank_info(ns.name@)
        },
        Some(RecordType::ClauseValueCheck(check)) => match check {
            ClauseCheck::DependentRule(m) => NameInfoView {
                error: opt_view(m.message),
                message: or_empty(m.custom_message),
                ..blank
            },
            ClauseCheck::MissingBlockValue(v) => NameInfoView {
                error: opt_view(v.message),
                message: or_empty(v.custom_message),
                path: match v.from {
                    QueryResult::UnResolved(u) => u.traversed_to.path@,
                    _ => Seq::empty(),
                },
                ..blank
            },
            ClauseCheck::Unary(u) => {
                let info = NameInfoView {
                    comparison: Some(
                        Comparison {
                            operator: u.comparison.0,
                            not_operator_exists: u.comparison.1,
                        },
                    ),
                    message: or_empty(u.value.custom_message),
                    ..blank
                };
                match u.value.from {
                    QueryResult::UnResolved(ur) => found(
                        NameInfoView {
                            error: Some(
                                match u.value.message {
                                    Some(m) => m@,
                                    None => or_empty(ur.reason),
                                },
                            ),
                            ..info
                        },
                        ur.traversed_to,
                    ),
                    QueryResult::Resolved(res) => found(
                        NameInfoView { error: opt_view(u.value.message), ..info },
                        res,
                    ),
                    QueryResult::Literal(res) => found(
                        NameInfoView { error: opt_view(u.value.message), ..info },
                        res,
                    ),
                }
            },
            ClauseCheck::Comparison(c) => {
                let info = NameInfoView {
                    comparison: Some(
                        Comparison { operator: c.comparison.0, not_operator_exists: c.comparison.1 },
                    ),
                    message: or_empty(c.custom_message),
                    ..blank
                };
                match c.from {
                    QueryResult::UnResolved(ur) => found(
                        NameInfoView {
                            error: Some(
                                match c.message {
                                    Some(m) => m@,
                                    None => or_empty(ur.reason),
                                },
                            ),
                            ..info
                        },
                        ur.traversed_to,
                    ),
                    _ => found(
                        NameInfoView {
                            error: opt_view(c.message),
                            expected: match c.to {
                                Some(to) => Some(query_json(to)),
                                None => None,
                            },
                            ..info
                        },
                        match c.from {
                            QueryResult::Resolved(res) => res,
                            QueryResult::Literal(res) => res,
                            QueryResult::UnResolved(ur) => ur.traversed_to,
                        },
                    ),
                }
            },
            ClauseCheck::NoValueForEmptyCheck(msg) => NameInfoView {
                comparison: Some(
                    Comparison { operator: CmpOperator::Empty, not_operator_exists: false },
                ),
                message: or_empty(msg),
                ..blank
            },
            ClauseCheck::InComparison(ic) => NameInfoView {
                comparison: Some(
                    Comparison { operator: ic.comparison.0, not_operator_exists: ic.comparison.1 },
                ),
                provided: match ic.from {
                    QueryResult::Resolved(v) => Some(v.json@),
                    _ => None,
                },
                expected: Some(json_array(ic.to@)),
                message: or_empty(ic.message),
                ..blank
            },
            ClauseCheck::Success => blank,
        },
        _ => blank,
    }
}

/// A copy of `o`.
fn copy_opt(o: &Option<String>) -> (r: Option<String>)
    ensures
        opt_view(r) == opt_view(*o),
{
    match o {
        Some(t) => Some(t.clone()),
        None => None,
    }
}

/// A copy of the characters of `o`, empty when there is none.
fn copy_or_empty(o: &Option<String>) -> (r: String)
    ensures
        r@ == or_empty(*o),
{
    match o {
        Some(t) => t.clone(),
        None => String::new(),
    }
}

/// See [`query_json`].
fn query_json_of(q: &QueryResult) -> (r: String)
    ensures
        r@ == query_json(*q),
{
    match q {
        QueryResult::Literal(v) => v.json.clone(),
        QueryResult::Resolved(v) => v.json.clone(),
        QueryResult::UnResolved(u) => u.traversed_to.json.clone(),
    }
}

/// See [`json_array`].
fn json_array_of(to: &Vec<QueryResult>) -> (r: String)
    ensures
        r@ == json_array(to@),
{
    let mut parts: Vec<String> = Vec::new();
    let mut i: usize = 0;
    while i < to.len()
        invariant
            i <= to@.len(),
            views(parts@) == to@.take(i as int).map_values(|q: QueryResult| query_json(q)),
        decreases to.len() - i,
    {
        let ghost before = parts@;
        let j = query_json_of(&to[i]);
        parts.push(j);
        assert(views(parts@) =~= views(before).push(j@));
        assert(to@.take(i + 1).map_values(|q: QueryResult| query_json(q)) =~= to@.take(
            i as int,
        ).map_values(|q: QueryResult| query_json(q)).push(query_json(to@[i as int])));
        i += 1;
    }
    assert(to@.take(i as int) =~= to@);
    let mut r = string_of("[");
    let joined = join_strings(&parts, ",");
    push_str(&mut r, joined.as_str());
    push_str(&mut r, "]");
    r
}

/// A clause's report with its value found at `v` (see [`found`]).
fn with_found(info: NameInfo, v: &DataValue) -> (r: NameInfo)
    ensures
        r@ == found(info@, *v),
{
    NameInfo { path: v.path.clone(), provided: Some(v.json.clone()), ..info }
}

/// A report for `rule` that says nothing yet (see [`blank_info`]).
fn blank_name_info(rule: &str) -> (r: NameInfo)
    ensures
        r@ == blank_info(rule@),
{
    NameInfo {
        rule: string_of(rule),
        path: String::new(),
        provided: None,
        expected: None,
        comparison: None,
        message: String::new(),
        error: None,
    }
}

/// The error of a clause whose query stopped: the check's own message, else why the query
/// stopped, else empty.
fn stopped_error(message: &Option<String>, reason: &Option<String>) -> (r: String)
    ensures
        r@ == match *message {
            Some(m) => m@,
            None => or_empty(*reason),
        },
{
    match message {
        Some(m) => m.clone(),
        None => copy_or_empty(reason),
    }
}

/// What a report says of the failing record `clause` of the rule `rule_name` (see
/// [`record_name_info`]).
pub fn extract_name_info_from_record(rule_name: &str, clause: &EventRecord) -> (r: NameInfo)
    requires
        extractable(*clause),
    ensures
        r@ == record_name_info(rule_name@, *clause),
{
    let blank = blank_name_info(rule_name);
    match &clause.container {
        Some(RecordType::RuleCheck(ns)) => NameInfo {
            message: copy_or_empty(&ns.message),
            ..blank_name_info(ns.name.as_str())
        },
        Some(RecordType::ClauseValueCheck(check)) => match check {
            ClauseCheck::DependentRule(m) => NameInfo {
                error: copy_opt(&m.message),
                message: copy_or_empty(&m.custom_message),
                ..blank
            },
            ClauseCheck::MissingBlockValue(v) => NameInfo {
                error: copy_opt(&v.message),
                message: copy_or_empty(&v.custom_message),
                path: match &v.from {
                    QueryResult::UnResolved(u) => u.traversed_to.path.clone(),
                    _ => String::new(),
                },
                ..blank
            },
            ClauseCheck::Unary(u) => {
                let info = NameInfo {
                    comparison: Some(
                        Comparison {
                            operator: u.comparison.0,
                            not_operator_exists: u.comparison.1,
                        },
                    ),
                    message: copy_or_empty(&u.value.custom_message),
                    ..blank
                };
                match &u.value.from {
                    QueryResult::UnResolved(ur) => with_found(
                        NameInfo {
                            error: Some(stopped_error(&u.value.message, &ur.reason)),
                            ..info
                        },
                        &ur.traversed_to,
                    ),
                    QueryResult::Resolved(res) => with_found(
                        NameInfo { error: copy_opt(&u.value.message), ..info },
                        res,
                    ),
                    QueryResult::Literal(res) => with_found(
                        NameInfo { error: copy_opt(&u.value.message), ..info },
                        res,
                    ),
                }
            },
            ClauseCheck::Comparison(c) => {
                let info = NameInfo {
                    comparison: Some(
                        Comparison { operator: c.comparison.0, not_operator_exists: c.comparison.1 },
                    ),
                    message: copy_or_empty(&c.custom_message),
                    ..blank
                };
                match &c.from {
                    QueryResult::UnResolved(ur) => with_found(
                        NameInfo {
                            error: Some(stopped_error(&c.message, &ur.reason)),
                            ..info
                        },
                        &ur.traversed_to,
                    ),
                    QueryResult::Resolved(res) => with_found(
                        NameInfo {
                            error: copy_opt(&c.message),
                            expected: match &c.to {
                                Some(to) => Some(query_json_of(to)),
                                None => None,
                            },
                            ..info
                        },
                        res,
                    ),
                    QueryResult::Literal(res) => with_found(
                        NameInfo {
                            error: copy_opt(&c.message),
                            expected: match &c.to {
                                Some(to) => Some(query_json_of(to)),
                                None => None,
                            },
                            ..info
                        },
                        res,
                    ),
                }
            },
            ClauseCheck::NoValueForEmptyCheck(msg) => NameInfo {
                comparison: Some(
                    Comparison { operator: CmpOperator::Empty, not_operator_exists: false },
                ),
                message: copy_or_empty(msg),
                ..blank
            },
            ClauseCheck::InComparison(ic) => NameInfo {
                comparison: Some(
                    Comparison { operator: ic.comparison.0, not_operator_exists: ic.comparison.1 },
                ),
                provided: match &ic.from {
                    QueryResult::Resolved(v) => Some(v.json.clone()),
                    _ => None,
                },
                expected: Some(json_array_of(&ic.to)),
                message: copy_or_empty(&ic.message),
                ..blank
            },
            ClauseCheck::Success => blank,
        },
        _ => blank,
    }
}

/// The records below `rec`, in order, that a report says what failed of: each clause that made
/// a check that did not succeed, and each failing rule that carries a message, without looking
/// below them; nothing below a filter.
pub open spec fn failing_clauses(rec: EventRecord) -> Seq<EventRecord>
    decreases rec, 0int,
{
    match rec.container {
        Some(RecordType::Filter(_)) => Seq::empty(),
        Some(RecordType::ClauseValueCheck(ClauseCheck::Success)) => Seq::empty(),
        Some(RecordType::ClauseValueCheck(_)) => seq![rec],
        _ => if rec.container matches Some(RecordType::RuleCheck(ns)) && ns.message is Some
            && ns.status == Status::FAIL {
            seq![rec]
        } else {
            children_failing_clauses(rec.children@, rec.children@.len() as int)
        },
    }
}

/// The failing clauses below the first `n` of `cs`, in order.
pub open spec fn children_failing_clauses(cs: Seq<EventRecord>, n: int) -> Seq<EventRecord>
    decreases cs, n,
{
    if n <= 0 || n > cs.len() {
        Seq::empty()
    } else {
        children_failing_clauses(cs, n - 1) + failing_clauses(cs[n - 1])
    }
}

/// The records that [`failing_clauses`] finds below `current`.
pub fn find_failing_clauses(current: &EventRecord) -> (r: Vec<&EventRecord>)
    ensures
        r@.map_values(|e: &EventRecord| *e) == failing_clauses(*current),
    decreases current,
{
    match &current.container {
        Some(RecordType::Filter(_)) => {
            return Vec::new();
        },
        Some(RecordType::ClauseValueCheck(ClauseCheck::Success)) => {
            return Vec::new();
        },
        Some(RecordType::ClauseValueCheck(_)) => {
            let mut v = Vec::new();
            v.push(current);
            assert(v@.map_values(|e: &EventRecord| *e) =~= seq![*current]);
            return v;
        },
        Some(RecordType::RuleCheck(ns)) => {
            if ns.message.is_some() && ns.status == Status::FAIL {
                let mut v = Vec::new();
                v.push(current);
                assert(v@.map_values(|e: &EventRecord| *e) =~= seq![*current]);
                return v;
            }
        },
        _ => {},
    }
    let mut acc: Vec<&EventRecord> = Vec::new();
    let n = current.children.len();
    let mut i: usize = 0;
    while i < n
        invariant
            n == current.children@.len(),
            i <= n,
            acc@.map_values(|e: &EventRecord| *e) == children_failing_clauses(
                current.children@,
                i as int,
            ),
        decreases n - i,
    {
        let found = find_failing_clauses(&current.children[i]);
        let ghost before = acc@;
        let mut k: usize = 0;
        while k < found.len()
            invariant
                k <= found@.len(),
                acc@ == before + found@.take(k as int),
            decreases found.len() - k,
        {
            acc.push(found[k]);
            k += 1;
            assert(acc@ =~= before + found@.take(k as int));
        }
        assert(found@.take(k as int) =~= found@);
        assert((before + found@).map_values(|e: &EventRecord| *e) =~= before.map_values(
            |e: &EventRecord| *e,
        ) + found@.map_values(|e: &EventRecord| *e));
        i += 1;
    }
    acc
}

/// What a report says of each failing clause of the rule `rule` named `name`, in order (see
/// [`failing_clauses`] and [`record_name_info`]).
pub fn failing_rule_name_infos(name: &str, rule: &EventRecord) -> (r: Vec<NameInfo>)
    requires
        forall|i: int|
            0 <= i < failing_clauses(*rule).len() ==> extractable(
                #[trigger] failing_clauses(*rule)[i],
            ),
    ensures
        r@.map_values(|n: NameInfo| n@) == failing_clauses(*rule).map_values(
            |c: EventRecord| record_name_info(name@, c),
        ),
{
    let clauses = find_failing_clauses(rule);
    let ghost found = failing_clauses(*rule);
    assert(forall|i: int| 0 <= i < clauses@.len() ==> *clauses@[i] == #[trigger] found[i]) by {
        assert forall|i: int| 0 <= i < clauses@.len() implies *clauses@[i] == #[trigger] found[i] by {
            assert(clauses@.map_values(|e: &EventRecord| *e)[i] == *clauses@[i]);
        }
    }
    let mut infos: Vec<NameInfo> = Vec::new();
    let mut i: usize = 0;
    while i < clauses.len()
        invariant
            i <= clauses@.len(),
            clauses@.len() == found.len(),
            forall|k: int| 0 <= k < clauses@.len() ==> *clauses@[k] == #[trigger] found[k],
            forall|k: int| 0 <= k < found.len() ==> extractable(#[trigger] found[k]),
            found == failing_clauses(*rule),
            infos@.map_values(|n: NameInfo| n@) == found.take(i as int).map_values(
                |c: EventRecord| record_name_info(name@, c),
            ),
        decreases clauses.len() - i,
    {
        assert(extractable(found[i as int]));
        let info = extract_name_info_from_record(name, clauses[i]);
        let ghost before = infos@;
        infos.push(info);
        assert(infos@.map_values(|n: NameInfo| n@) =~= before.map_values(|n: NameInfo| n@).push(
            info@,
        ));
        assert(found.take(i + 1).map_values(|c: EventRecord| record_name_info(name@, c))
            =~= found.take(i as int).map_values(|c: EventRecord| record_name_info(name@, c)).push(
            record_name_info(name@, found[i as int]),
        ));
        i += 1;
    }
    assert(found.take(i as int) =~= found);
    infos
}

} // verus!
