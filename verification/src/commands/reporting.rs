//! What the `test` command reports: verdicts compared with expectations, the sentences for what
//! went unchecked, and the exit status a report makes.
use vstd::prelude::*;
use vstd::utf8::encode_utf8;

use crate::commands::console_tree::{BlockCheck, ClauseCheck, TypeBlockCheck};
use crate::commands::wrapper::Writer;
use crate::commands::{SUCCESS_STATUS_CODE, TEST_ERROR_STATUS_CODE, TEST_FAILURE_STATUS_CODE};
use crate::errors::Error;
use crate::sorted::{insert_sorted, string_set, strictly_sorted};
use crate::text::{push_str, str_eq, string_of, views};

verus! {

/// The verdict of a rule.
#[derive(Clone, Copy, Debug, PartialEq, Eq, Structural)]
pub enum Status {
    PASS,
    FAIL,
    SKIP,
}

/// A rule's name with its verdict.
pub struct NamedStatus {
    pub name: String,
    pub status: Status,
    pub message: Option<String>,
}

/// What an evaluation record is about.
pub enum RecordType {
    /// The verdict of a whole rules file.
    FileCheck(NamedStatus),
    /// The verdict of a whole rule.
    RuleCheck(NamedStatus),
    /// The verdict of a block of clauses for a resource type.
    TypeBlock(Status),
    /// The verdict of a type block together with the type it checked.
    TypeCheck(TypeBlockCheck),
    /// The verdict of a block of clauses over a query.
    BlockGuardCheck(BlockCheck),
    /// The verdict of a block of clauses.
    GuardClauseBlockCheck(BlockCheck),
    /// The verdict of a `when` condition's block.
    WhenCheck(BlockCheck),
    /// The verdict of clauses joined by `or`.
    Disjunction(BlockCheck),
    /// The check a single clause made.
    ClauseValueCheck(ClauseCheck),
    /// A filter on the values of a query; whether it kept any.
    Filter(bool),
    /// A record about anything else within a rule, such as a filter or a condition.
    Other,
}

/// The verdict a record carries, if it is a rule's.
pub open spec fn record_status(record: Option<RecordType>) -> Seq<Status> {
    match record {
        Some(RecordType::RuleCheck(ns)) => seq![ns.status],
        _ => Seq::empty(),
    }
}

/// The verdicts among `records`, in order.
pub open spec fn rule_statuses(records: Seq<&Option<RecordType>>) -> Seq<Status>
    decreases records.len(),
{
    if records.len() == 0 {
        Seq::empty()
    } else {
        record_status(*records[0]) + rule_statuses(records.drop_first())
    }
}

/// `s` up to its first `x`; all of it when it holds none.
pub open spec fn before_first(s: Seq<Status>, x: Status) -> Seq<Status>
    decreases s.len(),
{
    if s.len() == 0 || s[0] == x {
        Seq::empty()
    } else {
        seq![s[0]] + before_first(s.drop_first(), x)
    }
}

/// How many of `s` are `x`.
pub open spec fn count_of(s: Seq<Status>, x: Status) -> nat
    decreases s.len(),
{
    if s.len() == 0 {
        0
    } else {
        count_of(s.drop_last(), x) + if s.last() == x {
            1nat
        } else {
            0nat
        }
    }
}

/// What comparing the verdicts of one rule's `records` with `expected` gives: the expected status
/// when some verdict matches it -- for `SKIP`, when every record is a skipped verdict -- and the
/// verdicts seen, up to the first match.
pub open spec fn status_result(expected: Status, records: Seq<&Option<RecordType>>) -> (
    Option<Status>,
    Seq<Status>,
) {
    let all = rule_statuses(records);
    if expected == Status::SKIP {
        (
            if count_of(all, Status::SKIP) == records.len() {
                Some(Status::SKIP)
            } else {
                None
            },
            all,
        )
    } else if all.contains(expected) {
        (Some(expected), before_first(all, expected))
    } else {
        (None, all)
    }
}

/// Whether a record is a rule's verdict of `status`.
pub open spec fn is_verdict(record: Option<RecordType>, status: Status) -> bool {
    record matches Some(RecordType::RuleCheck(ns)) && ns.status == status
}

proof fn lemma_count_of_concat(a: Seq<Status>, b: Seq<Status>, x: Status)
    ensures
        count_of(a + b, x) == count_of(a, x) + count_of(b, x),
    decreases b.len(),
{
    if b.len() == 0 {
        assert(a + b =~= a);
    } else {
        lemma_count_of_concat(a, b.drop_last(), x);
        assert((a + b).drop_last() =~= a + b.drop_last());
    }
}

proof fn lemma_count_of_bounded(s: Seq<Status>, x: Status)
    ensures
        count_of(s, x) <= s.len(),
    decreases s.len(),
{
    if s.len() > 0 {
        lemma_count_of_bounded(s.drop_last(), x);
    }
}

proof fn lemma_rule_statuses_bounded(records: Seq<&Option<RecordType>>)
    ensures
        rule_statuses(records).len() <= records.len(),
    decreases records.len(),
{
    if records.len() > 0 {
        lemma_rule_statuses_bounded(records.drop_first());
    }
}

proof fn lemma_all_skipped(records: Seq<&Option<RecordType>>)
    ensures
        count_of(rule_statuses(records), Status::SKIP) == records.len() <==> forall|i: int|
            0 <= i < records.len() ==> is_verdict(*#[trigger] records[i], Status::SKIP),
    decreases records.len(),
{
    if records.len() > 0 {
        let rest = records.drop_first();
        lemma_all_skipped(rest);
        lemma_count_of_concat(record_status(*records[0]), rule_statuses(rest), Status::SKIP);
        lemma_count_of_bounded(rule_statuses(rest), Status::SKIP);
        lemma_rule_statuses_bounded(rest);
        let head = record_status(*records[0]);
        assert(count_of(head, Status::SKIP) == if is_verdict(*records[0], Status::SKIP) {
            1nat
        } else {
            0nat
        }) by {
            match *records[0] {
                Some(RecordType::RuleCheck(ns)) => {
                    assert(head == seq![ns.status]);
                    assert(head.drop_last() =~= Seq::<Status>::empty());
                    assert(count_of(head.drop_last(), Status::SKIP) == 0);
                    assert(head.last() == ns.status);
                },
                _ => {
                    assert(head.len() == 0);
                },
            }
        }
        if forall|i: int| 0 <= i < records.len() ==> is_verdict(*#[trigger] records[i], Status::SKIP) {
            assert forall|i: int| 0 <= i < rest.len() implies is_verdict(*#[trigger] rest[i], Status::SKIP) by {
                assert(rest[i] == records[i + 1]);
            }
            assert(is_verdict(*records[0], Status::SKIP));
        }
        if count_of(rule_statuses(records), Status::SKIP) == records.len() {
            assert forall|i: int| 0 <= i < records.len() implies is_verdict(*#[trigger] records[i], Status::SKIP) by {
                if i > 0 {
                    assert(records[i] == rest[i - 1]);
                }
            }
        }
    }
}

proof fn lemma_statuses_contain(records: Seq<&Option<RecordType>>, x: Status)
    ensures
        rule_statuses(records).contains(x) <==> exists|i: int|
            0 <= i < records.len() && is_verdict(*#[trigger] records[i], x),
    decreases records.len(),
{
    if records.len() > 0 {
        let rest = records.drop_first();
        lemma_statuses_contain(rest, x);
        let head = record_status(*records[0]);
        let all = rule_statuses(records);
        assert(all == head + rule_statuses(rest));
        if all.contains(x) {
            let k = choose|k: int| 0 <= k < all.len() && all[k] == x;
            if k < head.len() {
                assert(is_verdict(*records[0], x));
            } else {
                assert(rule_statuses(rest)[k - head.len()] == x);
                assert(rule_statuses(rest).contains(x));
                let j = choose|j: int| 0 <= j < rest.len() && is_verdict(*#[trigger] rest[j], x);
                assert(records[j + 1] == rest[j]);
            }
        }
        if exists|i: int| 0 <= i < records.len() && is_verdict(*#[trigger] records[i], x) {
            let i = choose|i: int| 0 <= i < records.len() && is_verdict(*#[trigger] records[i], x);
            if i == 0 {
                assert(all[0] == x);
            } else {
                assert(rest[i - 1] == records[i]);
                assert(rule_statuses(rest).contains(x));
                let k = choose|k: int| 0 <= k < rule_statuses(rest).len() && rule_statuses(rest)[k] == x;
                assert(all[k + head.len()] == x);
            }
        }
    }
}

/// A `SKIP` expectation holds exactly when every record of the rule is a `SKIP` verdict; a single
/// record of any other kind, such as a `FAIL` verdict, means it does not hold. All the rule's
/// verdicts come back with the answer.
pub proof fn law_skip_expectation_needs_every_verdict_skipped(records: Seq<&Option<RecordType>>)
    ensures
        status_result(Status::SKIP, records).0 == Some(Status::SKIP) <==> forall|i: int|
            0 <= i < records.len() ==> is_verdict(*#[trigger] records[i], Status::SKIP),
        status_result(Status::SKIP, records).0 is None <==> exists|i: int|
            0 <= i < records.len() && !is_verdict(*#[trigger] records[i], Status::SKIP),
        status_result(Status::SKIP, records).1 == rule_statuses(records),
{
    lemma_all_skipped(records);
}

/// Any other expectation is met exactly when some record of the rule is a verdict of that status.
pub proof fn law_expectation_met_by_a_matching_verdict(
    expected: Status,
    records: Seq<&Option<RecordType>>,
)
    requires
        expected != Status::SKIP,
    ensures
        status_result(expected, records).0 == Some(expected) <==> exists|i: int|
            0 <= i < records.len() && is_verdict(*#[trigger] records[i], expected),
        status_result(expected, records).0 is None <==> forall|i: int|
            0 <= i < records.len() ==> !is_verdict(*#[trigger] records[i], expected),
{
    lemma_statuses_contain(records, expected);
}

proof fn lemma_rule_statuses_split(records: Seq<&Option<RecordType>>, i: int)
    requires
        0 <= i < records.len(),
    ensures
        rule_statuses(records.skip(i)) == record_status(*records[i]) + rule_statuses(
            records.skip(i + 1),
        ),
{
    assert(records.skip(i).drop_first() =~= records.skip(i + 1));
    assert(records.skip(i)[0] == records[i]);
}

proof fn lemma_before_first(a: Seq<Status>, x: Status, b: Seq<Status>)
    requires
        !a.contains(x),
    ensures
        before_first(a + seq![x] + b, x) == a,
        (a + seq![x] + b).contains(x),
    decreases a.len(),
{
    let s = a + seq![x] + b;
    assert(s[a.len() as int] == x);
    if a.len() == 0 {
        assert(s[0] == x);
    } else {
        assert(a[0] != x) by {
            assert(a.contains(a[0]));
        }
        assert(!a.drop_first().contains(x)) by {
            if a.drop_first().contains(x) {
                let j = choose|j: int| 0 <= j < a.drop_first().len() && a.drop_first()[j] == x;
                assert(a[j + 1] == x);
            }
        }
        lemma_before_first(a.drop_first(), x, b);
        assert(s.drop_first() =~= a.drop_first() + seq![x] + b);
        assert(seq![a[0]] + a.drop_first() =~= a);
    }
}

/// Compares the verdicts of one rule's `records` with `expected`: the expected status when some
/// verdict matches it -- for `SKIP`, when every record is a skipped verdict -- and the verdicts
/// seen, up to the first match.
pub fn get_status_result(expected: Status, rule: Vec<&Option<RecordType>>) -> (r: (
    Option<Status>,
    Vec<Status>,
))
    ensures
        (r.0, r.1@) == status_result(expected, rule@),
{
    let mut statuses: Vec<Status> = Vec::new();
    let mut all_skipped: usize = 0;
    let mut i: usize = 0;
    let ghost records = rule@;
    assert(records.skip(0) =~= records);
    while i < rule.len()
        invariant
            i <= rule.len(),
            records == rule@,
            statuses@ + rule_statuses(records.skip(i as int)) == rule_statuses(records),
            expected != Status::SKIP ==> !statuses@.contains(expected),
            expected == Status::SKIP ==> all_skipped == count_of(statuses@, Status::SKIP),
            all_skipped <= i,
        decreases rule.len() - i,
    {
        proof {
            lemma_rule_statuses_split(records, i as int);
        }
        if let Some(RecordType::RuleCheck(ns)) = rule[i] {
            let got = ns.status;
            if expected == Status::SKIP {
                if got == Status::SKIP {
                    all_skipped += 1;
                }
            } else if got == expected {
                proof {
                    lemma_before_first(statuses@, expected, rule_statuses(records.skip(i + 1)));
                    assert(statuses@ + seq![got] + rule_statuses(records.skip(i + 1))
                        =~= rule_statuses(records));
                }
                return (Some(expected), statuses);
            }
            let ghost before = statuses@;
            statuses.push(got);
            proof {
                assert(statuses@.drop_last() =~= before);
                if expected != Status::SKIP {
                    assert(!statuses@.contains(expected)) by {
                        if statuses@.contains(expected) {
                            let j = choose|j: int| 0 <= j < statuses@.len() && statuses@[j] == expected;
                            if j < before.len() {
                                assert(before[j] == expected);
                            }
                        }
                    }
                }
            }
        }
        proof {
            assert(statuses@ + rule_statuses(records.skip(i + 1)) =~= rule_statuses(records));
        }
        i += 1;
    }
    proof {
        assert(records.skip(i as int) =~= Seq::<&Option<RecordType>>::empty());
        assert(statuses@ =~= rule_statuses(records));
    }
    if expected == Status::SKIP && all_skipped == rule.len() {
        return (Some(expected), statuses);
    }
    (None, statuses)
}

/// A rule whose verdict met its expectation.
pub struct PassedRule {
    pub name: String,
    pub evaluated: Status,
}

/// A rule the test data gave no expectation for.
pub struct SkippedRule {
    pub name: String,
}

/// An expectation no rule in the file answered, and why.
pub struct UncheckedExpectation {
    pub name: String,
    pub reason: String,
}

/// A rule whose verdicts did not meet its expectation.
pub struct FailedRule {
    pub name: String,
    pub expected: Status,
    pub evaluated: Vec<Status>,
}

/// The outcome of one rule against its expectation.
pub enum RecordResult {
    Pass(PassedRule),
    Fail(FailedRule),
}

/// The outcome of the rule `rule_name` against `expected`, from its verdict records.
pub fn evaluate_result(records: Vec<&Option<RecordType>>, expected: Status, rule_name: &str) -> (r:
    RecordResult)
    ensures
        match status_result(expected, records@) {
            (Some(status), _) => r matches RecordResult::Pass(p) && p.name@ == rule_name@
                && p.evaluated == status,
            (None, statuses) => r matches RecordResult::Fail(f) && f.name@ == rule_name@
                && f.expected == expected && f.evaluated@ == statuses,
        },
{
    let (matched, statuses) = get_status_result(expected, records);
    match matched {
        Some(status) => RecordResult::Pass(PassedRule { name: crate::text::string_of(rule_name), evaluated: status }),
        None => RecordResult::Fail(
            FailedRule { name: crate::text::string_of(rule_name), evaluated: statuses, expected },
        ),
    }
}

// ---------------------------------------------------------------------------------------------
// Expectations nothing checked
// ---------------------------------------------------------------------------------------------

/// The names of the expectations no evaluated rule answered.
pub open spec fn unmatched_names(expectations: Seq<(String, String)>, evaluated: Seq<String>) -> Set<
    Seq<char>,
> {
    Set::new(
        |n: Seq<char>|
            (exists|i: int| 0 <= i < expectations.len() && #[trigger] expectations[i].0@ == n)
                && !(exists|j: int| 0 <= j < evaluated.len() && #[trigger] evaluated[j]@ == n),
    )
}

/// The expectations no evaluated rule answered, by name and in sorted order.
pub fn unmatched_expectation_names(
    expectations: &Vec<(String, String)>,
    evaluated: &Vec<String>,
) -> (r: Vec<String>)
    ensures
        strictly_sorted(views(r@)),
        string_set(r@) == unmatched_names(expectations@, evaluated@),
{
    let mut names: Vec<String> = Vec::new();
    let mut i: usize = 0;
    while i < expectations.len()
        invariant
            i <= expectations@.len(),
            strictly_sorted(views(names@)),
            string_set(names@) == Set::new(
                |n: Seq<char>|
                    (exists|k: int| 0 <= k < i && #[trigger] expectations@[k].0@ == n) && !(exists|
                        j: int,
                    |
                        0 <= j < evaluated@.len() && #[trigger] evaluated@[j]@ == n),
            ),
        decreases expectations.len() - i,
    {
        let name = &expectations[i].0;
        let mut found = false;
        let mut j: usize = 0;
        while j < evaluated.len()
            invariant
                j <= evaluated@.len(),
                !found ==> forall|m: int| 0 <= m < j ==> evaluated@[m]@ != name@,
                found ==> exists|m: int| 0 <= m < evaluated@.len() && #[trigger] evaluated@[m]@ == name@,
            decreases evaluated.len() - j,
        {
            if evaluated[j] == *name {
                found = true;
            }
            j += 1;
        }
        let ghost before = string_set(names@);
        if !found {
            insert_sorted(&mut names, name.clone());
        }
        proof {
            let target = Set::new(
                |n: Seq<char>|
                    (exists|k: int| 0 <= k < i + 1 && #[trigger] expectations@[k].0@ == n) && !(
                    exists|j: int| 0 <= j < evaluated@.len() && #[trigger] evaluated@[j]@ == n),
            );
            assert forall|n: Seq<char>| target.contains(n) <==> string_set(names@).contains(n) by {
                if target.contains(n) {
                    let k = choose|k: int| 0 <= k < i + 1 && #[trigger] expectations@[k].0@ == n;
                    if k < i {
                        assert(before.contains(n));
                    }
                }
            }
            assert(string_set(names@) =~= target);
        }
        i += 1;
    }
    assert(string_set(names@) =~= unmatched_names(expectations@, evaluated@));
    names
}

/// What a rules file declares, as far as expectations are concerned.
pub struct RulesFile {
    /// The rules the file evaluates at its top level.
    pub rule_names: Vec<String>,
    /// The rules that take parameters, which get a verdict only where a clause invokes them.
    pub parameterized_rule_names: Vec<String>,
}

/// A rules file under test, with the name it is reported by.
pub struct ContextAwareRule {
    pub rule: RulesFile,
    pub name: String,
}

/// The verdict a test file expects of each rule, by the rule's name.
pub struct TestExpectations {
    pub rules: Vec<(String, String)>,
}

impl TestExpectations {
    /// No rule is named twice.
    pub open spec fn wf(&self) -> bool {
        forall|i: int, j: int|
            0 <= i < j < self.rules@.len() ==> #[trigger] self.rules@[i].0@ != #[trigger] self.rules@[j].0@
    }

    /// The verdict expected of the rule `name`, if one is.
    pub open spec fn expected(&self, name: Seq<char>) -> Option<Seq<char>> {
        if exists|i: int| 0 <= i < self.rules@.len() && #[trigger] self.rules@[i].0@ == name {
            let i = choose|i: int| 0 <= i < self.rules@.len() && #[trigger] self.rules@[i].0@ == name;
            Some(self.rules@[i].1@)
        } else {
            None
        }
    }

    /// The verdict expected of the rule `name`, if one is.
    pub fn get(&self, name: &str) -> (r: Option<String>)
        requires
            self.wf(),
        ensures
            r matches Some(v) ==> self.expected(name@) == Some(v@),
            r is None ==> self.expected(name@) is None,
    {
        let mut i: usize = 0;
        while i < self.rules.len()
            invariant
                self.wf(),
                i <= self.rules@.len(),
                forall|k: int| 0 <= k < i ==> self.rules@[k].0@ != name@,
            decreases self.rules.len() - i,
        {
            if str_eq(self.rules[i].0.as_str(), name) {
                let ghost c = choose|c: int| 0 <= c < self.rules@.len() && #[trigger] self.rules@[c].0@ == name@;
                assert(c == i as int) by {
                    if c < i {
                    } else if c > i {
                        assert(self.rules@[i as int].0@ != self.rules@[c].0@);
                    }
                }
                return Some(self.rules[i].1.clone());
            }
            i += 1;
        }
        None
    }
}

/// Why the expectation for `name` was not checked against `rules`.
pub open spec fn unchecked_message(parameterized: Seq<String>, name: Seq<char>) -> Seq<char> {
    if exists|i: int| 0 <= i < parameterized.len() && #[trigger] parameterized[i]@ == name {
        name
            + " is a parameterized rule, which only gets a verdict where a clause invokes it, so its expectation was not checked"@
    } else {
        "No rule named "@ + name + " is in this file, so its expectation was not checked"@
    }
}

/// Why the expectation for `name` was not checked: the rule takes parameters, or the file has no
/// rule of that name.
pub fn unchecked_expectation_message(rules: &RulesFile, name: &str) -> (r: String)
    ensures
        r@ == unchecked_message(rules.parameterized_rule_names@, name@),
{
    let mut i: usize = 0;
    while i < rules.parameterized_rule_names.len()
        invariant
            i <= rules.parameterized_rule_names@.len(),
            forall|k: int| 0 <= k < i ==> rules.parameterized_rule_names@[k]@ != name@,
        decreases rules.parameterized_rule_names.len() - i,
    {
        if str_eq(rules.parameterized_rule_names[i].as_str(), name) {
            let mut r = string_of(name);
            push_str(
                &mut r,
                " is a parameterized rule, which only gets a verdict where a clause invokes it, so its expectation was not checked",
            );
            return r;
        }
        i += 1;
    }
    let mut r = string_of("No rule named ");
    push_str(&mut r, name);
    push_str(&mut r, " is in this file, so its expectation was not checked");
    r
}

/// The sentence for expectations against a rules file that declares no rules.
pub fn no_rules_declared_message(rules_file: &str, expectation: &str) -> (r: String)
    ensures
        r@ == rules_file@ + " declares no rules, so the expectation for "@ + expectation@
            + " was not checked"@,
{
    let mut r = string_of(rules_file);
    push_str(&mut r, " declares no rules, so the expectation for ");
    push_str(&mut r, expectation);
    push_str(&mut r, " was not checked");
    r
}

/// The sentence for an expectation against a rules file that declares no rules.
pub open spec fn no_rules_text(rules_file: Seq<char>, expectation: Seq<char>) -> Seq<char> {
    rules_file + " declares no rules, so the expectation for "@ + expectation + " was not checked"@
}

/// The sentence for a test file that could not be read.
pub open spec fn unreadable_test_file_text(error: Seq<char>) -> Seq<char> {
    "Unable to process a test file: "@ + error
}

/// The sentences for the expectations of one test case.
pub open spec fn expectation_messages(rules_file: Seq<char>, e: TestExpectations) -> Seq<Seq<char>> {
    e.rules@.map_values(|p: (String, String)| no_rules_text(rules_file, p.0@))
}

/// The sentences for the expectations of the test cases `specs`, in order.
pub open spec fn specs_messages(rules_file: Seq<char>, specs: Seq<TestExpectations>) -> Seq<Seq<char>>
    decreases specs.len(),
{
    if specs.len() == 0 {
        Seq::empty()
    } else {
        specs_messages(rules_file, specs.drop_last()) + expectation_messages(rules_file, specs.last())
    }
}

/// The sentences for the test files `files`, each read as its test cases or as the error that
/// stopped it: one for each expectation, one for each file that could not be read.
pub open spec fn files_messages(
    rules_file: Seq<char>,
    files: Seq<Result<Vec<TestExpectations>, String>>,
) -> Seq<Seq<char>>
    decreases files.len(),
{
    if files.len() == 0 {
        Seq::empty()
    } else {
        files_messages(rules_file, files.drop_last()) + match files.last() {
            Ok(specs) => specs_messages(rules_file, specs@),
            Err(e) => seq![unreadable_test_file_text(e@)],
        }
    }
}

/// Adds to `diagnostics`, a sorted set, a sentence for every expectation the test files hold and
/// for every test file that could not be read, for a rules file named `rules_file` that declares
/// no rules; answers whether there was any: a run asked nothing of such a file only when there was
/// none.
pub fn report_expectations_against_no_rules(
    rules_file: &str,
    files: &Vec<Result<Vec<TestExpectations>, String>>,
    diagnostics: &mut Vec<String>,
) -> (dropped: bool)
    requires
        strictly_sorted(views(old(diagnostics)@)),
    ensures
        strictly_sorted(views(final(diagnostics)@)),
        string_set(final(diagnostics)@) == string_set(old(diagnostics)@).union(
            files_messages(rules_file@, files@).to_set(),
        ),
        dropped == (files_messages(rules_file@, files@).len() > 0),
{
    let ghost start = string_set(diagnostics@);
    let mut dropped = false;
    let mut i: usize = 0;
    assert(files_messages(rules_file@, files@.take(0)).to_set() =~= Set::<Seq<char>>::empty());
    assert(start.union(Set::<Seq<char>>::empty()) =~= start);
    while i < files.len()
        invariant
            i <= files@.len(),
            strictly_sorted(views(diagnostics@)),
            string_set(diagnostics@) == start.union(files_messages(rules_file@, files@.take(i as int)).to_set()),
            dropped == (files_messages(rules_file@, files@.take(i as int)).len() > 0),
        decreases files.len() - i,
    {
        let ghost done = files_messages(rules_file@, files@.take(i as int));
        let ghost next = files@.take(i + 1);
        assert(next.drop_last() =~= files@.take(i as int));
        assert(next.last() == files@[i as int]);
        match &files[i] {
            Err(e) => {
                let mut m = string_of("Unable to process a test file: ");
                push_str(&mut m, e.as_str());
                insert_sorted(diagnostics, m);
                dropped = true;
                assert(files_messages(rules_file@, next) == done + seq![unreadable_test_file_text(e@)]);
                assert((done + seq![unreadable_test_file_text(e@)]).to_set() =~= done.to_set().insert(
                    unreadable_test_file_text(e@),
                )) by {
                    lemma_push_to_set(done, unreadable_test_file_text(e@));
                    assert(done + seq![unreadable_test_file_text(e@)] =~= done.push(unreadable_test_file_text(e@)));
                }
                assert(string_set(diagnostics@) =~= start.union(files_messages(rules_file@, next).to_set()));
            },
            Ok(specs) => {
                let mut j: usize = 0;
                assert(done + specs_messages(rules_file@, specs@.take(0)) =~= done);
                while j < specs.len()
                    invariant
                        j <= specs@.len(),
                        strictly_sorted(views(diagnostics@)),
                        string_set(diagnostics@) == start.union(
                            (done + specs_messages(rules_file@, specs@.take(j as int))).to_set(),
                        ),
                        dropped == ((done + specs_messages(rules_file@, specs@.take(j as int))).len() > 0),
                    decreases specs.len() - j,
                {
                    let ghost sdone = done + specs_messages(rules_file@, specs@.take(j as int));
                    let ghost snext = specs@.take(j + 1);
                    assert(snext.drop_last() =~= specs@.take(j as int));
                    assert(snext.last() == specs@[j as int]);
                    let expectations = &specs[j];
                    let ghost em = expectation_messages(rules_file@, *expectations);
                    let mut k: usize = 0;
                    assert(sdone + em.take(0) =~= sdone);
                    while k < expectations.rules.len()
                        invariant
                            k <= expectations.rules@.len(),
                            em == expectation_messages(rules_file@, *expectations),
                            strictly_sorted(views(diagnostics@)),
                            string_set(diagnostics@) == start.union((sdone + em.take(k as int)).to_set()),
                            dropped == ((sdone + em.take(k as int)).len() > 0),
                        decreases expectations.rules.len() - k,
                    {
                        let m = no_rules_declared_message(rules_file, expectations.rules[k].0.as_str());
                        assert(m@ == em[k as int]);
                        let ghost before = sdone + em.take(k as int);
                        insert_sorted(diagnostics, m);
                        dropped = true;
                        assert(sdone + em.take(k + 1) =~= before.push(em[k as int]));
                        proof {
                            lemma_push_to_set(before, em[k as int]);
                        }
                        assert(string_set(diagnostics@) =~= start.union((sdone + em.take(k + 1)).to_set()));
                        k += 1;
                    }
                    assert(em.take(k as int) =~= em);
                    assert(done + specs_messages(rules_file@, snext) =~= sdone + em);
                    j += 1;
                }
                assert(specs@.take(j as int) =~= specs@);
            },
        }
        i += 1;
    }
    assert(files@.take(i as int) =~= files@);
    dropped
}

/// One more item adds it to the set of items.
proof fn lemma_push_to_set(s: Seq<Seq<char>>, x: Seq<char>)
    ensures
        s.push(x).to_set() == s.to_set().insert(x),
{
    assert forall|y: Seq<char>| s.push(x).to_set().contains(y) <==> s.to_set().insert(x).contains(y) by {
        if s.push(x).contains(y) {
            let k = choose|k: int| 0 <= k < s.len() + 1 && s.push(x)[k] == y;
            if k < s.len() {
                assert(s[k] == y);
            }
        }
        if s.contains(y) {
            let k = choose|k: int| 0 <= k < s.len() && s[k] == y;
            assert(s.push(x)[k] == y);
        }
        if y == x {
            assert(s.push(x)[s.len() as int] == y);
        }
    }
    assert(s.push(x).to_set() =~= s.to_set().insert(x));
}

/// The sentence for a test file no rules file claimed.
pub fn unmatched_test_file_message(path: &str) -> (r: String)
    ensures
        r@ == path@ + " did not match any rules file, so it was not run"@,
{
    let mut r = string_of(path);
    push_str(&mut r, " did not match any rules file, so it was not run");
    r
}

/// The error for a test file that is neither YAML nor JSON.
pub fn test_file_parse_error(path: &str, error: &str) -> (r: Error)
    ensures
        r matches Error::ParseError(m) && m@ == "Unable to process data in file "@ + path@
            + ", Error "@ + error@,
{
    let mut m = string_of("Unable to process data in file ");
    push_str(&mut m, path);
    push_str(&mut m, ", Error ");
    push_str(&mut m, error);
    Error::ParseError(m)
}

/// The lines of `diagnostics` run together, one per line.
pub open spec fn diagnostic_lines(diagnostics: Seq<String>) -> Seq<char>
    decreases diagnostics.len(),
{
    if diagnostics.len() == 0 {
        Seq::empty()
    } else {
        diagnostic_lines(diagnostics.drop_last()) + diagnostics.last()@ + "\n"@
    }
}

/// Writes what a run collected to the error stream, one line each, in the order of the set; an
/// error when standard error refuses a line, which ends the writing. A collecting error stream
/// always takes them; the output is left alone.
pub fn write_diagnostics(diagnostics: &Vec<String>, writer: &mut Writer) -> (r: Result<(), Error>)
    ensures
        r is Ok ==> final(writer).err_written() == old(writer).err_written() + encode_utf8(
            diagnostic_lines(diagnostics@),
        ),
        final(writer).err_collected() is Some <==> old(writer).err_collected() is Some,
        r is Ok ==> final(writer).err_collected() == match old(writer).err_collected() {
            Some(b) => Some(b + encode_utf8(diagnostic_lines(diagnostics@))),
            None => None::<Seq<u8>>,
        },
        final(writer).written() == old(writer).written(),
        final(writer).collected() == old(writer).collected(),
        old(writer).err_collected() is Some ==> r is Ok,
        r matches Err(e) ==> e is IoError,
{
    let ghost start = writer.err_written();
    let ghost start_collected = writer.err_collected();
    let mut k: usize = 0;
    assert(diagnostics@.take(0) =~= Seq::<String>::empty());
    assert(encode_utf8(Seq::<char>::empty()) =~= Seq::<u8>::empty());
    assert(start + Seq::<u8>::empty() =~= start);
    while k < diagnostics.len()
        invariant
            k <= diagnostics@.len(),
            writer.err_written() == start + encode_utf8(diagnostic_lines(diagnostics@.take(k as int))),
            writer.err_collected() is Some <==> start_collected is Some,
            writer.err_collected() == match start_collected {
                Some(b) => Some(b + encode_utf8(diagnostic_lines(diagnostics@.take(k as int)))),
                None => None::<Seq<u8>>,
            },
            writer.written() == old(writer).written(),
            writer.collected() == old(writer).collected(),
            start_collected == old(writer).err_collected(),
            start == old(writer).err_written(),
        decreases diagnostics.len() - k,
    {
        let ghost before = diagnostic_lines(diagnostics@.take(k as int));
        let ghost d = diagnostics@[k as int]@;
        match writer.write_err(diagnostics[k].as_str()) {
            Ok(()) => {},
            Err(e) => {
                return Err(e);
            },
        }
        assert(diagnostics@.take(k + 1).drop_last() =~= diagnostics@.take(k as int));
        assert(diagnostic_lines(diagnostics@.take(k + 1)) =~= before + (d + "\n"@));
        proof {
            crate::commands::wrapper::lemma_encode_utf8_concat(before, d + "\n"@);
        }
        k += 1;
    }
    assert(diagnostics@.take(k as int) =~= diagnostics@);
    Ok(())
}

// ---------------------------------------------------------------------------------------------
// Test reports
// ---------------------------------------------------------------------------------------------

/// One case of a test file: its verdicts, and what stopped it when something did.
pub struct TestCase {
    pub name: String,
    /// What stopped the case, when something did.
    pub error: Option<String>,
    pub passed_rules: Vec<PassedRule>,
    pub failed_rules: Vec<FailedRule>,
    pub skipped_rules: Vec<SkippedRule>,
    pub unchecked_expectations: Vec<UncheckedExpectation>,
    /// Milliseconds the case took.
    pub time: u128,
}

impl TestCase {
    /// A case carrying nothing but the reason it could not run.
    pub fn errored(name: String, error: String, time: u128) -> (r: TestCase)
        ensures
            r.name == name,
            r.error == Some(error),
            r.time == time,
            r.passed_rules@.len() == 0,
            r.failed_rules@.len() == 0,
            r.skipped_rules@.len() == 0,
            r.unchecked_expectations@.len() == 0,
    {
        TestCase {
            name,
            error: Some(error),
            passed_rules: Vec::new(),
            failed_rules: Vec::new(),
            skipped_rules: Vec::new(),
            unchecked_expectations: Vec::new(),
            time,
        }
    }

    /// An expectation was not met.
    pub open spec fn spec_has_failures(&self) -> bool {
        self.failed_rules@.len() > 0
    }

    /// The case could not run, or an expectation had no rule to be checked against.
    pub open spec fn spec_has_errors(&self) -> bool {
        self.error is Some || self.unchecked_expectations@.len() > 0
    }

    /// Whether an expectation was not met.
    pub fn has_failures(&self) -> (r: bool)
        ensures
            r == self.spec_has_failures(),
    {
        self.failed_rules.len() > 0
    }

    /// How many expectations were not met.
    pub fn number_of_failures(&self) -> (r: usize)
        ensures
            r == self.failed_rules@.len(),
    {
        self.failed_rules.len()
    }

    /// Whether anything about the case is an error rather than a verdict.
    pub fn has_errors(&self) -> (r: bool)
        ensures
            r == self.spec_has_errors(),
    {
        self.error.is_some() || self.unchecked_expectations.len() > 0
    }

    /// One error per unchecked expectation, plus one for a case that could not run.
    pub fn number_of_errors(&self) -> (r: usize)
        requires
            self.unchecked_expectations@.len() + (if self.error is Some {
                1int
            } else {
                0int
            }) <= usize::MAX,
        ensures
            r == self.unchecked_expectations@.len() + if self.error is Some {
                1int
            } else {
                0int
            },
    {
        let own: usize = if self.error.is_some() {
            1
        } else {
            0
        };
        own + self.unchecked_expectations.len()
    }
}

/// The report of a rules file whose cases ran.
pub struct EvaluatedFile {
    pub rule_file: String,
    pub test_cases: Vec<TestCase>,
    pub time: u128,
}

/// The report of a rules file that could not be read or parsed.
pub struct UnreadableFile {
    pub rule_file: String,
    pub error: String,
    pub time: u128,
}

/// The report of one rules file.
pub enum TestResult {
    Evaluated(EvaluatedFile),
    Unreadable(UnreadableFile),
}

/// The exit status a report makes: an error when the file could not be used, a case could not
/// run or an expectation had no rule; a failure when an expectation was not met; success
/// otherwise.
pub open spec fn result_exit_code(result: TestResult) -> i32 {
    match result {
        TestResult::Unreadable(_) => TEST_ERROR_STATUS_CODE,
        TestResult::Evaluated(ok) => if exists|i: int|
            0 <= i < ok.test_cases@.len() && #[trigger] ok.test_cases@[i].spec_has_errors() {
            TEST_ERROR_STATUS_CODE
        } else if exists|i: int|
            0 <= i < ok.test_cases@.len() && #[trigger] ok.test_cases@[i].spec_has_failures() {
            TEST_FAILURE_STATUS_CODE
        } else {
            SUCCESS_STATUS_CODE
        },
    }
}

impl TestResult {
    /// Adds a case to the report of a rules file whose cases ran, with its time.
    pub fn insert_test_case(&mut self, tc: TestCase)
        requires
            (*old(self)) is Evaluated,
            (*old(self))->Evaluated_0.time + tc.time <= u128::MAX,
        ensures
            (*final(self)) is Evaluated,
            (*final(self))->Evaluated_0.rule_file == (*old(self))->Evaluated_0.rule_file,
            (*final(self))->Evaluated_0.time == (*old(self))->Evaluated_0.time + tc.time,
            (*final(self))->Evaluated_0.test_cases@ == (*old(self))->Evaluated_0.test_cases@.push(tc),
    {
        match self {
            TestResult::Evaluated(result) => {
                result.time = result.time + tc.time;
                result.test_cases.push(tc);
            },
            TestResult::Unreadable(_) => {},
        }
    }

    /// Reports a test file that could not be read as one errored case, named after the file and
    /// carrying the error's sentence, so that the cases of the other test files keep their
    /// verdicts; the run then ends with the error status.
    pub fn insert_unreadable_test_file(&mut self, file_name: &str, error: &Error, time: u128)
        requires
            (*old(self)) is Evaluated,
            (*old(self))->Evaluated_0.time + time <= u128::MAX,
        ensures
            (*final(self)) is Evaluated,
            (*final(self))->Evaluated_0.rule_file == (*old(self))->Evaluated_0.rule_file,
            (*final(self))->Evaluated_0.time == (*old(self))->Evaluated_0.time + time,
            (*final(self))->Evaluated_0.test_cases@.len() == (*old(self))->Evaluated_0.test_cases@.len()
                + 1,
            (*final(self))->Evaluated_0.test_cases@.drop_last()
                == (*old(self))->Evaluated_0.test_cases@,
            ({
                let case = (*final(self))->Evaluated_0.test_cases@.last();
                &&& case.name@ == file_name@
                &&& case.error matches Some(m) && m@ == match *error {
                    Error::IllegalArguments(t) => t@,
                    Error::ParseError(t) => t@,
                    Error::IoError(t) => t@,
                }
                &&& case.time == time
                &&& case.passed_rules@.len() == 0
                &&& case.failed_rules@.len() == 0
                &&& case.skipped_rules@.len() == 0
                &&& case.unchecked_expectations@.len() == 0
            }),
            result_exit_code(*final(self)) == TEST_ERROR_STATUS_CODE,
    {
        let case = TestCase::errored(string_of(file_name), error.message(), time);
        self.insert_test_case(case);
        proof {
            let cases = (*self)->Evaluated_0.test_cases@;
            assert(cases.drop_last() =~= (*old(self))->Evaluated_0.test_cases@);
            assert(cases[cases.len() - 1].spec_has_errors());
        }
    }

    /// The exit status this report makes.
    pub fn get_exit_code(&self) -> (r: i32)
        ensures
            r == result_exit_code(*self),
    {
        match self {
            TestResult::Unreadable(_) => TEST_ERROR_STATUS_CODE,
            TestResult::Evaluated(ok) => {
                let mut errors = false;
                let mut failures = false;
                let mut i: usize = 0;
                while i < ok.test_cases.len()
                    invariant
                        i <= ok.test_cases@.len(),
                        errors == exists|k: int|
                            0 <= k < i && #[trigger] ok.test_cases@[k].spec_has_errors(),
                        failures == exists|k: int|
                            0 <= k < i && #[trigger] ok.test_cases@[k].spec_has_failures(),
                    decreases ok.test_cases.len() - i,
                {
                    if ok.test_cases[i].has_errors() {
                        errors = true;
                    }
                    if ok.test_cases[i].has_failures() {
                        failures = true;
                    }
                    i += 1;
                }
                if errors {
                    TEST_ERROR_STATUS_CODE
                } else if failures {
                    TEST_FAILURE_STATUS_CODE
                } else {
                    SUCCESS_STATUS_CODE
                }
            },
        }
    }
}

} // verus!
