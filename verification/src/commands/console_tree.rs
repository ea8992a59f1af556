//! The console report of a validation: the failing part of the evaluation's record tree, one
//! line for each failing rules file, rule and clause, drawn as an indented tree.
use vstd::prelude::*;

use crate::commands::name_info::{newlines_replaced, push_newlines_replaced, CmpOperator};
use crate::commands::reporting::{RecordType, Status};
use crate::text::{push_str, string_of};

verus! {

/// A value in the data.
pub struct DataValue {
    /// Where the value stands in the data.
    pub path: String,
    /// The value as the console prints it.
    pub value: String,
    /// The value as JSON text.
    pub json: String,
}

/// How far a query got before a property it asked for was missing.
pub struct UnResolved {
    /// The last value the query reached.
    pub traversed_to: DataValue,
    /// What was left of the query there.
    pub remaining_query: String,
    /// Why the query stopped, when it says.
    pub reason: Option<String>,
}

/// What a query in a clause came to.
pub enum QueryResult {
    /// A value written in the rule itself.
    Literal(DataValue),
    /// A value found in the data.
    Resolved(DataValue),
    /// A property that was not there.
    UnResolved(UnResolved),
}

/// The verdict of a block of clauses.
pub struct BlockCheck {
    pub status: Status,
    pub at_least_one_matches: bool,
    pub message: Option<String>,
}

/// The verdict of a block for a resource type.
pub struct TypeBlockCheck {
    pub resource_type: String,
    pub block: BlockCheck,
}

/// A check on one value.
pub struct ValueCheck {
    pub status: Status,
    pub from: QueryResult,
    /// Why the check could not be made, when it could not.
    pub message: Option<String>,
    /// The rule author's message.
    pub custom_message: Option<String>,
}

/// A check that looks at one value, with its operator and whether it was negated.
pub struct UnaryValueCheck {
    pub comparison: (CmpOperator, bool),
    pub value: ValueCheck,
}

/// A clause that names another rule.
pub struct MissingValueCheck {
    /// The rule it depends on.
    pub rule: String,
    pub status: Status,
    pub message: Option<String>,
    pub custom_message: Option<String>,
}

/// A check that a value is one of a list.
pub struct InComparisonCheck {
    pub status: Status,
    pub from: QueryResult,
    pub to: Vec<QueryResult>,
    pub comparison: (CmpOperator, bool),
    pub message: Option<String>,
}

/// A comparison of a value with another, with its operator and whether it was negated.
pub struct ComparisonClauseCheck {
    pub status: Status,
    pub comparison: (CmpOperator, bool),
    pub from: QueryResult,
    /// What the value was compared with; none when there was nothing to compare with.
    pub to: Option<QueryResult>,
    pub message: Option<String>,
    pub custom_message: Option<String>,
}

/// What a single clause checked.
pub enum ClauseCheck {
    Success,
    /// A variable that should have been empty was not; the rule author's message.
    NoValueForEmptyCheck(Option<String>),
    DependentRule(MissingValueCheck),
    MissingBlockValue(ValueCheck),
    Unary(UnaryValueCheck),
    Comparison(ComparisonClauseCheck),
    /// Membership in a list of values, which the console report does not print.
    InComparison(InComparisonCheck),
}

/// One record of an evaluation, with the records of what it evaluated within.
pub struct EventRecord {
    /// Where in the rules the record was made.
    pub context: String,
    pub container: Option<RecordType>,
    pub children: Vec<EventRecord>,
    /// The record as the report prints a failing rules file, rule or disjunction.
    pub text: String,
}

/// The branch drawn before a record: the last of its siblings closes the branch.
pub open spec fn branch(last: bool) -> Seq<char> {
    if last {
        "`- "@
    } else {
        "|- "@
    }
}

/// What the records below a printed record are indented by.
pub open spec fn child_indent(last: bool) -> Seq<char> {
    if last {
        "   "@
    } else {
        "|  "@
    }
}

/// What a failed one-value check says happened to the property.
pub open spec fn console_unary_verdict(op: CmpOperator, not: bool) -> Seq<char> {
    match op {
        CmpOperator::Exists => if not { "existed"@ } else { "did not exist"@ },
        CmpOperator::Empty => if not { "was empty"@ } else { "was not empty"@ },
        CmpOperator::IsList => if not { "was a list "@ } else { "was not list"@ },
        CmpOperator::IsMap => if not { "was a struct"@ } else { "was not struct"@ },
        _ => if not { "was a string "@ } else { "was not string"@ },
    }
}

/// The operators of the one-value checks that the console report prints.
pub open spec fn printable_unary(op: CmpOperator) -> bool {
    match op {
        CmpOperator::Exists | CmpOperator::Empty | CmpOperator::IsList | CmpOperator::IsMap
        | CmpOperator::IsString => true,
        _ => false,
    }
}

/// What a failed comparison says of the value and what it was compared with.
pub open spec fn console_comparison_verdict(op: CmpOperator, not: bool) -> Seq<char> {
    match op {
        CmpOperator::Eq => if not { "equal to"@ } else { "not equal to"@ },
        CmpOperator::Le => "less than equal to"@,
        CmpOperator::Lt => if not { "less than"@ } else { "not less than"@ },
        CmpOperator::Ge => if not { "greater than equal to"@ } else { "not greater than equal"@ },
        CmpOperator::Gt => if not { "greater than"@ } else { "not greater than"@ },
        _ => if not { "in"@ } else { "not in"@ },
    }
}

/// The operators of the comparisons that the console report prints.
pub open spec fn printable_comparison(op: CmpOperator) -> bool {
    match op {
        CmpOperator::Eq | CmpOperator::Le | CmpOperator::Lt | CmpOperator::Ge | CmpOperator::Gt
        | CmpOperator::In => true,
        _ => false,
    }
}

/// The tail of a line that gives why a check could not be made.
pub open spec fn error_part(message: Option<String>) -> Seq<char> {
    match message {
        Some(m) => " Error = ["@ + m@ + "]"@,
        None => Seq::empty(),
    }
}

/// The tail of a line that gives the rule author's message, on one line.
pub open spec fn message_part(custom: Option<String>) -> Seq<char> {
    match custom {
        Some(m) => " Message = ["@ + newlines_replaced(m@, ";"@) + "]"@,
        None => Seq::empty(),
    }
}

/// The line for a value that was missing, and how far its query got; `what` says which value.
pub open spec fn missing_line(lead: Seq<char>, what: Seq<char>, u: UnResolved, tail: Seq<char>) -> Seq<
    char,
> {
    lead + "Check was not compliant as property ["@ + u.remaining_query@ + what
        + ". Value traversed to ["@ + u.traversed_to.value@ + "]."@ + tail + "\n"@
}

/// Whether a failing record's verdict is printed.
pub open spec fn named_failure(container: Option<RecordType>) -> bool {
    match container {
        Some(RecordType::FileCheck(ns)) => ns.status == Status::FAIL,
        Some(RecordType::RuleCheck(ns)) => ns.status == Status::FAIL,
        Some(RecordType::Disjunction(b)) => b.status == Status::FAIL,
        _ => false,
    }
}

/// Whether a record is a failing block, which is not printed itself but whose records are.
pub open spec fn failed_block(container: Option<RecordType>) -> bool {
    match container {
        Some(RecordType::TypeBlock(s)) => s == Status::FAIL,
        Some(RecordType::BlockGuardCheck(b)) => b.status == Status::FAIL,
        Some(RecordType::GuardClauseBlockCheck(b)) => b.status == Status::FAIL,
        Some(RecordType::TypeCheck(t)) => t.block.status == Status::FAIL,
        Some(RecordType::WhenCheck(b)) => b.status == Status::FAIL,
        _ => false,
    }
}

/// Whether the records below a record are printed, and if so whether they are indented further:
/// they are below a printed failing rules file, rule or disjunction, a failing block, or a
/// clause check that the report prints and that did not stop at what it compared with.
pub open spec fn descent(container: Option<RecordType>) -> Option<bool> {
    if failed_block(container) {
        Some(false)
    } else if named_failure(container) {
        Some(true)
    } else {
        match container {
            Some(RecordType::ClauseValueCheck(check)) => match check {
                ClauseCheck::Unary(u) => if u.value.status == Status::FAIL {
                    Some(false)
                } else {
                    None
                },
                ClauseCheck::Comparison(c) => if c.status != Status::FAIL {
                    None
                } else if c.to matches Some(QueryResult::UnResolved(_)) {
                    None
                } else {
                    Some(false)
                },
                ClauseCheck::InComparison(_) => None,
                _ => Some(false),
            },
            _ => None,
        }
    }
}

/// Whether the report can print a record: what it prints of a clause is a value found in the
/// data or a missing property, never a literal of the rule, and its operator is one the report
/// has words for.
pub open spec fn printable_record(container: Option<RecordType>) -> bool {
    match container {
        Some(RecordType::ClauseValueCheck(check)) => match check {
            ClauseCheck::MissingBlockValue(v) => v.from is UnResolved,
            ClauseCheck::Unary(u) => u.value.status == Status::FAIL ==> printable_unary(
                u.comparison.0,
            ) && !(u.value.from is Literal),
            ClauseCheck::Comparison(c) => c.status == Status::FAIL ==> match c.to {
                Some(QueryResult::Literal(_)) => false,
                Some(QueryResult::UnResolved(_)) => true,
                _ => match c.from {
                    QueryResult::Literal(_) => false,
                    QueryResult::UnResolved(_) => true,
                    QueryResult::Resolved(_) => printable_comparison(c.comparison.0),
                },
            },
            _ => true,
        },
        _ => true,
    }
}

/// The line the report prints for a record, after `lead` (the indentation and the branch).
pub open spec fn record_line(
    rec: EventRecord,
    lead: Seq<char>,
    rules_file: Seq<char>,
    data_file: Seq<char>,
) -> Seq<char> {
    if named_failure(rec.container) {
        lead + rec.text@ + "\n"@
    } else {
        match rec.container {
            Some(RecordType::ClauseValueCheck(check)) => match check {
                ClauseCheck::NoValueForEmptyCheck(msg) => lead
                    + "Check was not compliant as variable in context ["@ + rec.context@
                    + "] was not empty. Message ["@ + match msg {
                    Some(m) => newlines_replaced(m@, ";"@),
                    None => Seq::empty(),
                } + "]\n"@,
                ClauseCheck::DependentRule(missing) => lead
                    + "Check was not compliant as dependent rule ["@ + missing.rule@
                    + "] evaluated to FAIL in ["@ + rules_file + "]. Context ["@ + rec.context@
                    + "]\n"@,
                ClauseCheck::MissingBlockValue(v) => match v.from {
                    QueryResult::UnResolved(u) => lead + "Check was not compliant as property ["@
                        + u.remaining_query@ + "] is missing in data ["@ + data_file
                        + "]. Value traversed to ["@ + u.traversed_to.value@ + "]\n"@,
                    _ => Seq::empty(),
                },
                ClauseCheck::Unary(u) => if u.value.status == Status::FAIL {
                    let tail = error_part(u.value.message) + message_part(u.value.custom_message);
                    match u.value.from {
                        QueryResult::Resolved(res) => lead + "Check was not compliant as property ["@
                            + res.path@ + "] "@ + console_unary_verdict(
                            u.comparison.0,
                            u.comparison.1,
                        ) + "."@ + tail + "\n"@,
                        QueryResult::UnResolved(ur) => missing_line(lead, "] is missing"@, ur, tail),
                        _ => Seq::empty(),
                    }
                } else {
                    Seq::empty()
                },
                ClauseCheck::Comparison(c) => if c.status == Status::FAIL {
                    let tail = error_part(c.message) + message_part(c.custom_message);
                    match c.to {
                        Some(QueryResult::UnResolved(to)) => missing_line(
                            lead,
                            "] to compare to is missing"@,
                            to,
                            tail,
                        ),
                        _ => match c.from {
                            QueryResult::UnResolved(from) => missing_line(
                                lead,
                                "] to compare from is missing"@,
                                from,
                                tail,
                            ),
                            QueryResult::Resolved(res) => lead
                                + "Check was not compliant as property value ["@ + res.value@
                                + "] "@ + console_comparison_verdict(c.comparison.0, c.comparison.1)
                                + " value ["@ + match c.to {
                                Some(QueryResult::Resolved(t)) => t.value@,
                                _ => "NULL"@,
                            } + "]."@ + tail + "\n"@,
                            _ => Seq::empty(),
                        },
                    }
                } else {
                    Seq::empty()
                },
                _ => Seq::empty(),
            },
            _ => Seq::empty(),
        }
    }
}

/// Whether the report can print every record it reaches from `rec`.
pub open spec fn printable_tree(rec: EventRecord) -> bool
    decreases rec, 0int,
{
    &&& printable_record(rec.container)
    &&& descent(rec.container) is Some ==> printable_children(
        rec.children@,
        rec.children@.len() as int,
    )
}

/// Whether the report can print every record it reaches from the first `n` of `cs`.
pub open spec fn printable_children(cs: Seq<EventRecord>, n: int) -> bool
    decreases cs, n,
{
    if n <= 0 || n > cs.len() {
        true
    } else {
        printable_children(cs, n - 1) && printable_tree(cs[n - 1])
    }
}

/// Each of the first `n` records that [`printable_children`] speaks of is printable.
proof fn lemma_printable_child(cs: Seq<EventRecord>, n: int, i: int)
    requires
        printable_children(cs, n),
        0 <= i < n <= cs.len(),
    ensures
        printable_tree(cs[i]),
    decreases n,
{
    if i < n - 1 {
        lemma_printable_child(cs, n - 1, i);
    }
}

/// What the report prints for `rec` and the records below it: the record's line, then, where the
/// records below are printed, each of them in order, the last closing the branch.
pub open spec fn tree_text(
    rec: EventRecord,
    prefix: Seq<char>,
    last: bool,
    rules_file: Seq<char>,
    data_file: Seq<char>,
) -> Seq<char>
    decreases rec, 0int,
{
    let line = record_line(rec, prefix + branch(last), rules_file, data_file);
    match descent(rec.container) {
        None => line,
        Some(indent) => line + children_text(
            rec.children@,
            rec.children@.len() as int,
            if indent {
                prefix + child_indent(last)
            } else {
                prefix
            },
            rules_file,
            data_file,
        ),
    }
}

/// What the report prints for the first `n` of the records `cs`, all below `prefix`.
pub open spec fn children_text(
    cs: Seq<EventRecord>,
    n: int,
    prefix: Seq<char>,
    rules_file: Seq<char>,
    data_file: Seq<char>,
) -> Seq<char>
    decreases cs, n,
{
    if n <= 0 || n > cs.len() {
        Seq::empty()
    } else {
        children_text(cs, n - 1, prefix, rules_file, data_file) + tree_text(
            cs[n - 1],
            prefix,
            n == cs.len(),
            rules_file,
            data_file,
        )
    }
}

/// Appends why a check could not be made (see [`error_part`]).
fn push_error_part(out: &mut String, message: &Option<String>)
    ensures
        final(out)@ == old(out)@ + error_part(*message),
{
    if let Some(m) = message {
        push_str(out, " Error = [");
        push_str(out, m.as_str());
        push_str(out, "]");
    }
}

/// Appends the rule author's message (see [`message_part`]).
fn push_message_part(out: &mut String, custom: &Option<String>)
    ensures
        final(out)@ == old(out)@ + message_part(*custom),
{
    if let Some(m) = custom {
        push_str(out, " Message = [");
        push_newlines_replaced(out, m.as_str(), ";");
        push_str(out, "]");
    }
}

/// The tail of a clause's line: why it could not be checked, then the author's message.
fn tail_of(message: &Option<String>, custom: &Option<String>) -> (r: String)
    ensures
        r@ == error_part(*message) + message_part(*custom),
{
    let mut t = String::new();
    push_error_part(&mut t, message);
    push_message_part(&mut t, custom);
    t
}

/// See [`console_unary_verdict`].
fn unary_verdict_text(op: CmpOperator, not: bool) -> (r: &'static str)
    ensures
        r@ == console_unary_verdict(op, not),
{
    match op {
        CmpOperator::Exists => if not { "existed" } else { "did not exist" },
        CmpOperator::Empty => if not { "was empty" } else { "was not empty" },
        CmpOperator::IsList => if not { "was a list " } else { "was not list" },
        CmpOperator::IsMap => if not { "was a struct" } else { "was not struct" },
        _ => if not { "was a string " } else { "was not string" },
    }
}

/// See [`console_comparison_verdict`].
fn comparison_verdict_text(op: CmpOperator, not: bool) -> (r: &'static str)
    ensures
        r@ == console_comparison_verdict(op, not),
{
    match op {
        CmpOperator::Eq => if not { "equal to" } else { "not equal to" },
        CmpOperator::Le => "less than equal to",
        CmpOperator::Lt => if not { "less than" } else { "not less than" },
        CmpOperator::Ge => if not { "greater than equal to" } else { "not greater than equal" },
        CmpOperator::Gt => if not { "greater than" } else { "not greater than" },
        _ => if not { "in" } else { "not in" },
    }
}

/// See [`missing_line`].
fn missing_line_of(lead: &str, what: &str, u: &UnResolved, tail: &str) -> (r: String)
    ensures
        r@ == missing_line(lead@, what@, *u, tail@),
{
    let mut m = string_of(lead);
    push_str(&mut m, "Check was not compliant as property [");
    push_str(&mut m, u.remaining_query.as_str());
    push_str(&mut m, what);
    push_str(&mut m, ". Value traversed to [");
    push_str(&mut m, u.traversed_to.value.as_str());
    push_str(&mut m, "].");
    push_str(&mut m, tail);
    push_str(&mut m, "\n");
    assert(m@ =~= missing_line(lead@, what@, *u, tail@));
    m
}

/// See [`named_failure`].
fn is_named_failure(container: &Option<RecordType>) -> (r: bool)
    ensures
        r == named_failure(*container),
{
    match container {
        Some(RecordType::FileCheck(ns)) => ns.status == Status::FAIL,
        Some(RecordType::RuleCheck(ns)) => ns.status == Status::FAIL,
        Some(RecordType::Disjunction(b)) => b.status == Status::FAIL,
        _ => false,
    }
}

/// See [`failed_block`].
fn is_failed_block(container: &Option<RecordType>) -> (r: bool)
    ensures
        r == failed_block(*container),
{
    match container {
        Some(RecordType::TypeBlock(s)) => *s == Status::FAIL,
        Some(RecordType::BlockGuardCheck(b)) => b.status == Status::FAIL,
        Some(RecordType::GuardClauseBlockCheck(b)) => b.status == Status::FAIL,
        Some(RecordType::TypeCheck(t)) => t.block.status == Status::FAIL,
        Some(RecordType::WhenCheck(b)) => b.status == Status::FAIL,
        _ => false,
    }
}

/// See [`descent`].
fn descent_of(container: &Option<RecordType>) -> (r: Option<bool>)
    ensures
        r == descent(*container),
{
    if is_failed_block(container) {
        return Some(false);
    }
    if is_named_failure(container) {
        return Some(true);
    }
    match container {
        Some(RecordType::ClauseValueCheck(check)) => match check {
            ClauseCheck::Unary(u) => if u.value.status == Status::FAIL {
                Some(false)
            } else {
                None
            },
            ClauseCheck::Comparison(c) => if c.status != Status::FAIL {
                None
            } else if let Some(QueryResult::UnResolved(_)) = &c.to {
                None
            } else {
                Some(false)
            },
            ClauseCheck::InComparison(_) => None,
            _ => Some(false),
        },
        _ => None,
    }
}

/// The line the report prints for `rec` after `lead` (see [`record_line`]).
fn record_line_of(rec: &EventRecord, lead: &str, rules_file: &str, data_file: &str) -> (r: String)
    requires
        printable_record(rec.container),
    ensures
        r@ == record_line(*rec, lead@, rules_file@, data_file@),
{
    if is_named_failure(&rec.container) {
        let mut m = string_of(lead);
        push_str(&mut m, rec.text.as_str());
        push_str(&mut m, "\n");
        assert(m@ =~= record_line(*rec, lead@, rules_file@, data_file@));
        return m;
    }
    let check = match &rec.container {
        Some(RecordType::ClauseValueCheck(check)) => check,
        _ => {
            return String::new();
        },
    };
    match check {
        ClauseCheck::NoValueForEmptyCheck(msg) => {
            let mut m = string_of(lead);
            push_str(&mut m, "Check was not compliant as variable in context [");
            push_str(&mut m, rec.context.as_str());
            push_str(&mut m, "] was not empty. Message [");
            if let Some(t) = msg {
                push_newlines_replaced(&mut m, t.as_str(), ";");
            }
            push_str(&mut m, "]\n");
            assert(m@ =~= record_line(*rec, lead@, rules_file@, data_file@));
            m
        },
        ClauseCheck::DependentRule(missing) => {
            let mut m = string_of(lead);
            push_str(&mut m, "Check was not compliant as dependent rule [");
            push_str(&mut m, missing.rule.as_str());
            push_str(&mut m, "] evaluated to FAIL in [");
            push_str(&mut m, rules_file);
            push_str(&mut m, "]. Context [");
            push_str(&mut m, rec.context.as_str());
            push_str(&mut m, "]\n");
            assert(m@ =~= record_line(*rec, lead@, rules_file@, data_file@));
            m
        },
        ClauseCheck::MissingBlockValue(v) => match &v.from {
            QueryResult::UnResolved(u) => {
                let mut m = string_of(lead);
                push_str(&mut m, "Check was not compliant as property [");
                push_str(&mut m, u.remaining_query.as_str());
                push_str(&mut m, "] is missing in data [");
                push_str(&mut m, data_file);
                push_str(&mut m, "]. Value traversed to [");
                push_str(&mut m, u.traversed_to.value.as_str());
                push_str(&mut m, "]\n");
                assert(m@ =~= record_line(*rec, lead@, rules_file@, data_file@));
                m
            },
            _ => String::new(),
        },
        ClauseCheck::Unary(u) => {
            if u.value.status != Status::FAIL {
                return String::new();
            }
            let tail = tail_of(&u.value.message, &u.value.custom_message);
            match &u.value.from {
                QueryResult::Resolved(res) => {
                    let mut m = string_of(lead);
                    push_str(&mut m, "Check was not compliant as property [");
                    push_str(&mut m, res.path.as_str());
                    push_str(&mut m, "] ");
                    push_str(&mut m, unary_verdict_text(u.comparison.0, u.comparison.1));
                    push_str(&mut m, ".");
                    push_str(&mut m, tail.as_str());
                    push_str(&mut m, "\n");
                    assert(m@ =~= record_line(*rec, lead@, rules_file@, data_file@));
                    m
                },
                QueryResult::UnResolved(ur) => missing_line_of(lead, "] is missing", ur, tail.as_str()),
                _ => String::new(),
            }
        },
        ClauseCheck::Comparison(c) => {
            if c.status != Status::FAIL {
                return String::new();
            }
            let tail = tail_of(&c.message, &c.custom_message);
            if let Some(QueryResult::UnResolved(to)) = &c.to {
                return missing_line_of(lead, "] to compare to is missing", to, tail.as_str());
            }
            match &c.from {
                QueryResult::UnResolved(from) => missing_line_of(
                    lead,
                    "] to compare from is missing",
                    from,
                    tail.as_str(),
                ),
                QueryResult::Resolved(res) => {
                    let mut m = string_of(lead);
                    push_str(&mut m, "Check was not compliant as property value [");
                    push_str(&mut m, res.value.as_str());
                    push_str(&mut m, "] ");
                    push_str(&mut m, comparison_verdict_text(c.comparison.0, c.comparison.1));
                    push_str(&mut m, " value [");
                    match &c.to {
                        Some(QueryResult::Resolved(t)) => push_str(&mut m, t.value.as_str()),
                        _ => push_str(&mut m, "NULL"),
                    }
                    push_str(&mut m, "].");
                    push_str(&mut m, tail.as_str());
                    push_str(&mut m, "\n");
                    assert(m@ =~= record_line(*rec, lead@, rules_file@, data_file@));
                    m
                },
                _ => String::new(),
            }
        },
        _ => String::new(),
    }
}

/// What the console report prints for the failing part of the record tree below `current`
/// (see [`tree_text`]): each failing rules file, rule and disjunction by its text, each failing
/// clause by what it found, every line after `prefix` and a branch that the last of its siblings
/// closes, and the records below a printed rule indented further.
pub fn pprint_failed_sub_tree(
    current: &EventRecord,
    prefix: &str,
    last: bool,
    rules_file_name: &str,
    data_file_name: &str,
) -> (r: String)
    requires
        printable_tree(*current),
    ensures
        r@ == tree_text(*current, prefix@, last, rules_file_name@, data_file_name@),
    decreases current,
{
    let mut lead = string_of(prefix);
    push_str(&mut lead, if last { "`- " } else { "|- " });
    let mut out = record_line_of(current, lead.as_str(), rules_file_name, data_file_name);
    let indent = match descent_of(&current.container) {
        None => {
            return out;
        },
        Some(indent) => indent,
    };
    let mut child_prefix = string_of(prefix);
    if indent {
        push_str(&mut child_prefix, if last { "   " } else { "|  " });
    }
    let ghost line = out@;
    let n = current.children.len();
    let mut i: usize = 0;
    while i < n
        invariant
            n == current.children@.len(),
            i <= n,
            printable_tree(*current),
            descent(current.container) is Some,
            out@ == line + children_text(
                current.children@,
                i as int,
                child_prefix@,
                rules_file_name@,
                data_file_name@,
            ),
        decreases n - i,
    {
        proof {
            lemma_printable_child(current.children@, n as int, i as int);
        }
        let s = pprint_failed_sub_tree(
            &current.children[i],
            child_prefix.as_str(),
            i + 1 == n,
            rules_file_name,
            data_file_name,
        );
        push_str(&mut out, s.as_str());
        i += 1;
        assert(out@ =~= line + children_text(
            current.children@,
            i as int,
            child_prefix@,
            rules_file_name@,
            data_file_name@,
        ));
    }
    out
}

} // verus!
