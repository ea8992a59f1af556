//! The junit report of a `test` run: a suite for each rules file, a test case for each verdict,
//! and totals that agree with the cases under them.
use vstd::prelude::*;

use crate::commands::reporting::{FailedRule, Status, TestCase, TestResult};
use crate::commands::sarif::Messages;
use crate::text::{join, push_str, string_of};

verus! {

/// How a junit test case ended.
pub enum TestCaseStatus {
    Pass,
    /// One `rule: why` line for each inapplicable rule the evaluator could explain.
    Skip { reasons: Vec<String> },
    Fail(FailingTestCase),
    Error { error: String },
}

/// What a failed junit test case says.
pub struct FailingTestCase {
    pub name: Option<String>,
    pub messages: Vec<Messages>,
}

/// One junit test case.
pub struct JunitTestCase {
    pub id: Option<String>,
    pub name: String,
    /// Milliseconds.
    pub time: u128,
    pub status: TestCaseStatus,
}

/// The test cases of one rules file, with their totals.
pub struct TestSuite {
    pub name: String,
    pub test_cases: Vec<JunitTestCase>,
    /// Milliseconds.
    pub time: u128,
    pub errors: usize,
    pub failures: usize,
}

impl TestSuite {
    /// A suite with the given cases and totals.
    pub fn new(name: String, test_cases: Vec<JunitTestCase>, time: u128, errors: usize, failures: usize) -> (r:
        TestSuite)
        ensures
            r.name == name,
            r.test_cases == test_cases,
            r.time == time,
            r.errors == errors,
            r.failures == failures,
    {
        TestSuite { name, test_cases, time, errors, failures }
    }
}

/// The junit report of a run: its suites and their totals.
pub struct JunitReport {
    pub name: String,
    pub test_suites: Vec<TestSuite>,
    pub failures: usize,
    pub errors: usize,
    pub tests: usize,
    /// Milliseconds.
    pub duration: u128,
}

// ---------------------------------------------------------------------------------------------
// Counting cases by how they ended
// ---------------------------------------------------------------------------------------------

/// How many of `cases` ended in an error.
pub open spec fn errors_in(cases: Seq<JunitTestCase>) -> nat
    decreases cases.len(),
{
    if cases.len() == 0 {
        0
    } else {
        errors_in(cases.drop_last()) + if cases.last().status is Error {
            1nat
        } else {
            0nat
        }
    }
}

/// How many of `cases` failed.
pub open spec fn failures_in(cases: Seq<JunitTestCase>) -> nat
    decreases cases.len(),
{
    if cases.len() == 0 {
        0
    } else {
        failures_in(cases.drop_last()) + if cases.last().status is Fail {
            1nat
        } else {
            0nat
        }
    }
}

/// Counting over two runs of cases adds up.
pub proof fn lemma_counts_concat(a: Seq<JunitTestCase>, b: Seq<JunitTestCase>)
    ensures
        errors_in(a + b) == errors_in(a) + errors_in(b),
        failures_in(a + b) == failures_in(a) + failures_in(b),
    decreases b.len(),
{
    if b.len() == 0 {
        assert(a + b =~= a);
    } else {
        lemma_counts_concat(a, b.drop_last());
        assert((a + b).drop_last() =~= a + b.drop_last());
        assert((a + b).last() == b.last());
    }
}

// ---------------------------------------------------------------------------------------------
// The cases of one test case of the test file
// ---------------------------------------------------------------------------------------------

/// The name junit gives a verdict.
pub open spec fn status_text(s: Status) -> Seq<char> {
    match s {
        Status::PASS => "PASS"@,
        Status::FAIL => "FAIL"@,
        Status::SKIP => "SKIP"@,
    }
}

/// The name of a verdict.
pub fn status_name(s: Status) -> (r: String)
    ensures
        r@ == status_text(s),
{
    match s {
        Status::PASS => string_of("PASS"),
        Status::FAIL => string_of("FAIL"),
        Status::SKIP => string_of("SKIP"),
    }
}

/// The message of a failed expectation: what was expected and the verdicts seen.
pub open spec fn failed_message(f: FailedRule) -> Seq<char> {
    "Expected = "@ + status_text(f.expected) + ", Evaluated = ["@ + join(
        f.evaluated@.map_values(|s: Status| status_text(s)),
        ", "@,
    ) + "]"@
}

/// The message of a failed expectation.
fn failure_message(f: &FailedRule) -> (r: String)
    ensures
        r@ == failed_message(*f),
{
    let mut r = string_of("Expected = ");
    push_str(&mut r, status_name(f.expected).as_str());
    push_str(&mut r, ", Evaluated = [");
    let ghost names = f.evaluated@.map_values(|s: Status| status_text(s));
    let mut k: usize = 0;
    let mut listed = String::new();
    while k < f.evaluated.len()
        invariant
            k <= f.evaluated@.len(),
            names == f.evaluated@.map_values(|s: Status| status_text(s)),
            listed@ == join(names.take(k as int), ", "@),
        decreases f.evaluated.len() - k,
    {
        let ghost before = names.take(k as int);
        if k > 0 {
            push_str(&mut listed, ", ");
        }
        push_str(&mut listed, status_name(f.evaluated[k]).as_str());
        let ghost after = names.take(k + 1);
        assert(after.drop_last() =~= before);
        assert(after.last() == status_text(f.evaluated@[k as int]));
        assert(k == 0 ==> after =~= seq![status_text(f.evaluated@[0])]);
        k += 1;
    }
    assert(names.take(k as int) =~= names);
    push_str(&mut r, listed.as_str());
    push_str(&mut r, "]");
    r
}

/// `status` is a failure carrying one message, with no name, location or author's message, whose
/// error message is `message`.
pub open spec fn failed_case_says(status: TestCaseStatus, message: Seq<char>) -> bool {
    match status {
        TestCaseStatus::Fail(fc) => {
            &&& fc.name is None
            &&& fc.messages@.len() == 1
            &&& fc.messages@[0].location is None
            &&& fc.messages@[0].custom_message is None
            &&& fc.messages@[0].error_message matches Some(m) && m@ == message
        },
        _ => false,
    }
}

/// `c` is a case of the test case `tc` with the given name and status kind.
pub open spec fn case_of(c: JunitTestCase, tc: TestCase, name: Seq<char>) -> bool {
    &&& c.id matches Some(id) && id@ == tc.name@
    &&& c.name@ == name
    &&& c.time == tc.time
}

/// Where the cases for passed rules start among the junit cases of `tc`: after the one for the
/// error that stopped it, if one did.
pub open spec fn passed_start(tc: TestCase) -> int {
    if tc.error is Some {
        1
    } else {
        0
    }
}

/// Where the cases for failed expectations start.
pub open spec fn failed_start(tc: TestCase) -> int {
    passed_start(tc) + tc.passed_rules@.len()
}

/// Where the cases for unchecked expectations start.
pub open spec fn unchecked_start(tc: TestCase) -> int {
    failed_start(tc) + tc.failed_rules@.len()
}

/// How many junit cases `tc` gives.
pub open spec fn case_count(tc: TestCase) -> int {
    unchecked_start(tc) + tc.unchecked_expectations@.len()
}

/// `cases` are the junit cases of `tc`: one for the error that stopped it, if one did; one for
/// each rule that met its expectation; one for each that did not, with the message saying what
/// was expected and seen; and one error for each expectation no rule answered.
pub open spec fn junit_cases_of(tc: TestCase, cases: Seq<JunitTestCase>) -> bool {
    &&& cases.len() == case_count(tc)
    &&& tc.error matches Some(err) ==> {
        &&& case_of(cases[0], tc, tc.name@)
        &&& cases[0].status matches TestCaseStatus::Error { error } && error@ == err@
    }
    &&& forall|i: int|
        passed_start(tc) <= i < failed_start(tc) ==> {
            &&& case_of(#[trigger] cases[i], tc, tc.passed_rules@[i - passed_start(tc)].name@)
            &&& cases[i].status is Pass
        }
    &&& forall|i: int|
        failed_start(tc) <= i < unchecked_start(tc) ==> {
            &&& case_of(#[trigger] cases[i], tc, tc.failed_rules@[i - failed_start(tc)].name@)
            &&& failed_case_says(cases[i].status, failed_message(tc.failed_rules@[i - failed_start(tc)]))
        }
    &&& forall|i: int|
        unchecked_start(tc) <= i < case_count(tc) ==> {
            &&& case_of(#[trigger] cases[i], tc, tc.unchecked_expectations@[i - unchecked_start(tc)].name@)
            &&& cases[i].status matches TestCaseStatus::Error { error } && error@
                == tc.unchecked_expectations@[i - unchecked_start(tc)].reason@
        }
}

/// The junit cases of `tc` (see [`junit_cases_of`]); its errors and failures are exactly what
/// [`TestCase::number_of_errors`] and [`TestCase::number_of_failures`] count.
pub fn build_junit_test_cases(tc: &TestCase) -> (r: Vec<JunitTestCase>)
    ensures
        junit_cases_of(*tc, r@),
        errors_in(r@) == case_errors(*tc),
        failures_in(r@) == tc.failed_rules@.len(),
{
    let mut cases: Vec<JunitTestCase> = Vec::new();
    if let Some(error) = &tc.error {
        cases.push(
            JunitTestCase {
                id: Some(tc.name.clone()),
                name: tc.name.clone(),
                time: tc.time,
                status: TestCaseStatus::Error { error: error.clone() },
            },
        );
    }
    assert(cases@.len() == passed_start(*tc));
    assert(errors_in(cases@) == passed_start(*tc) && failures_in(cases@) == 0) by {
        if tc.error is Some {
            assert(cases@.last().status is Error);
            assert(cases@.drop_last() =~= Seq::<JunitTestCase>::empty());
            assert(errors_in(cases@.drop_last()) == 0);
            assert(failures_in(cases@.drop_last()) == 0);
        }
    }
    let mut k: usize = 0;
    while k < tc.passed_rules.len()
        invariant
            k <= tc.passed_rules@.len(),
            cases@.len() == passed_start(*tc) + k,
            tc.error matches Some(err) ==> {
                &&& case_of(cases@[0], *tc, tc.name@)
                &&& cases@[0].status matches TestCaseStatus::Error { error } && error@ == err@
            },
            forall|i: int|
                passed_start(*tc) <= i < cases@.len() ==> {
                    &&& case_of(#[trigger] cases@[i], *tc, tc.passed_rules@[i - passed_start(*tc)].name@)
                    &&& cases@[i].status is Pass
                },
            errors_in(cases@) == passed_start(*tc),
            failures_in(cases@) == 0,
        decreases tc.passed_rules.len() - k,
    {
        let ghost before = cases@;
        cases.push(
            JunitTestCase {
                id: Some(tc.name.clone()),
                name: tc.passed_rules[k].name.clone(),
                time: tc.time,
                status: TestCaseStatus::Pass,
            },
        );
        assert(cases@.drop_last() =~= before);
        k += 1;
    }
    let mut k: usize = 0;
    while k < tc.failed_rules.len()
        invariant
            k <= tc.failed_rules@.len(),
            cases@.len() == failed_start(*tc) + k,
            tc.error matches Some(err) ==> {
                &&& case_of(cases@[0], *tc, tc.name@)
                &&& cases@[0].status matches TestCaseStatus::Error { error } && error@ == err@
            },
            forall|i: int|
                passed_start(*tc) <= i < failed_start(*tc) ==> {
                    &&& case_of(#[trigger] cases@[i], *tc, tc.passed_rules@[i - passed_start(*tc)].name@)
                    &&& cases@[i].status is Pass
                },
            forall|i: int|
                failed_start(*tc) <= i < cases@.len() ==> {
                    &&& case_of(#[trigger] cases@[i], *tc, tc.failed_rules@[i - failed_start(*tc)].name@)
                    &&& failed_case_says(
                        cases@[i].status,
                        failed_message(tc.failed_rules@[i - failed_start(*tc)]),
                    )
                },
            errors_in(cases@) == passed_start(*tc),
            failures_in(cases@) == k,
        decreases tc.failed_rules.len() - k,
    {
        let ghost before = cases@;
        let message = failure_message(&tc.failed_rules[k]);
        let mut messages: Vec<Messages> = Vec::new();
        messages.push(Messages { location: None, custom_message: None, error_message: Some(message) });
        cases.push(
            JunitTestCase {
                id: Some(tc.name.clone()),
                name: tc.failed_rules[k].name.clone(),
                time: tc.time,
                status: TestCaseStatus::Fail(FailingTestCase { name: None, messages }),
            },
        );
        assert(cases@.drop_last() =~= before);
        k += 1;
    }
    let mut k: usize = 0;
    while k < tc.unchecked_expectations.len()
        invariant
            k <= tc.unchecked_expectations@.len(),
            cases@.len() == unchecked_start(*tc) + k,
            tc.error matches Some(err) ==> {
                &&& case_of(cases@[0], *tc, tc.name@)
                &&& cases@[0].status matches TestCaseStatus::Error { error } && error@ == err@
            },
            forall|i: int|
                passed_start(*tc) <= i < failed_start(*tc) ==> {
                    &&& case_of(#[trigger] cases@[i], *tc, tc.passed_rules@[i - passed_start(*tc)].name@)
                    &&& cases@[i].status is Pass
                },
            forall|i: int|
                failed_start(*tc) <= i < unchecked_start(*tc) ==> {
                    &&& case_of(#[trigger] cases@[i], *tc, tc.failed_rules@[i - failed_start(*tc)].name@)
                    &&& failed_case_says(
                        cases@[i].status,
                        failed_message(tc.failed_rules@[i - failed_start(*tc)]),
                    )
                },
            forall|i: int|
                unchecked_start(*tc) <= i < cases@.len() ==> {
                    &&& case_of(
                        #[trigger] cases@[i],
                        *tc,
                        tc.unchecked_expectations@[i - unchecked_start(*tc)].name@,
                    )
                    &&& cases@[i].status matches TestCaseStatus::Error { error } && error@
                        == tc.unchecked_expectations@[i - unchecked_start(*tc)].reason@
                },
            errors_in(cases@) == passed_start(*tc) + k,
            failures_in(cases@) == tc.failed_rules@.len(),
        decreases tc.unchecked_expectations.len() - k,
    {
        let ghost before = cases@;
        cases.push(
            JunitTestCase {
                id: Some(tc.name.clone()),
                name: tc.unchecked_expectations[k].name.clone(),
                time: tc.time,
                status: TestCaseStatus::Error { error: tc.unchecked_expectations[k].reason.clone() },
            },
        );
        assert(cases@.drop_last() =~= before);
        k += 1;
    }
    cases
}

// ---------------------------------------------------------------------------------------------
// Suites
// ---------------------------------------------------------------------------------------------

/// The errors of `tc`: one for each unchecked expectation, and one when it could not run.
pub open spec fn case_errors(tc: TestCase) -> int {
    tc.unchecked_expectations@.len() + if tc.error is Some {
        1int
    } else {
        0int
    }
}

/// The errors of the cases `tcs`, added up.
pub open spec fn total_errors(tcs: Seq<TestCase>) -> int
    decreases tcs.len(),
{
    if tcs.len() == 0 {
        0
    } else {
        total_errors(tcs.drop_last()) + case_errors(tcs.last())
    }
}

/// The failed expectations of the cases `tcs`, added up.
pub open spec fn total_failures(tcs: Seq<TestCase>) -> int
    decreases tcs.len(),
{
    if tcs.len() == 0 {
        0
    } else {
        total_failures(tcs.drop_last()) + tcs.last().failed_rules@.len()
    }
}

/// The time the cases `tcs` took, added up.
pub open spec fn total_time(tcs: Seq<TestCase>) -> int
    decreases tcs.len(),
{
    if tcs.len() == 0 {
        0
    } else {
        total_time(tcs.drop_last()) + tcs.last().time
    }
}

/// How many junit cases the test cases `tcs` give in all.
pub open spec fn total_cases(tcs: Seq<TestCase>) -> int
    decreases tcs.len(),
{
    if tcs.len() == 0 {
        0
    } else {
        total_cases(tcs.drop_last()) + case_count(tcs.last())
    }
}

/// `cases` are the junit cases of each of `tcs` in turn.
pub open spec fn suite_cases_of(tcs: Seq<TestCase>, cases: Seq<JunitTestCase>) -> bool {
    &&& cases.len() == total_cases(tcs)
    &&& forall|i: int|
        0 <= i < tcs.len() ==> junit_cases_of(
            #[trigger] tcs[i],
            cases.subrange(total_cases(tcs.take(i)), total_cases(tcs.take(i + 1))),
        )
}

/// `suite` is the suite of `result`: a rules file that could not be used is one erroring case
/// named after it; otherwise the suite holds the junit cases of each of its test cases in turn,
/// with their errors, failures and time added up.
pub open spec fn suite_of(result: TestResult, suite: TestSuite) -> bool {
    match result {
        TestResult::Unreadable(u) => {
            &&& suite.name@ == u.rule_file@
            &&& suite.test_cases@.len() == 1
            &&& suite.test_cases@[0].id is None
            &&& suite.test_cases@[0].name@ == u.rule_file@
            &&& suite.test_cases@[0].time == u.time
            &&& suite.test_cases@[0].status matches TestCaseStatus::Error { error } && error@ == u.error@
            &&& suite.time == u.time
            &&& suite.errors == 1
            &&& suite.failures == 0
        },
        TestResult::Evaluated(ok) => {
            &&& suite.name@ == ok.rule_file@
            &&& suite_cases_of(ok.test_cases@, suite.test_cases@)
            &&& suite.errors == total_errors(ok.test_cases@)
            &&& suite.failures == total_failures(ok.test_cases@)
            &&& suite.time == total_time(ok.test_cases@)
        },
    }
}

/// The totals of `result` fit the integers a suite holds them in.
pub open spec fn suite_fits(result: TestResult) -> bool {
    match result {
        TestResult::Unreadable(_) => true,
        TestResult::Evaluated(ok) => {
            &&& total_errors(ok.test_cases@) <= usize::MAX
            &&& total_failures(ok.test_cases@) <= usize::MAX
            &&& total_time(ok.test_cases@) <= u128::MAX
        },
    }
}

proof fn lemma_totals_grow(tcs: Seq<TestCase>, k: int)
    requires
        0 <= k <= tcs.len(),
    ensures
        total_errors(tcs.take(k)) <= total_errors(tcs),
        total_failures(tcs.take(k)) <= total_failures(tcs),
        total_time(tcs.take(k)) <= total_time(tcs),
    decreases tcs.len() - k,
{
    if k < tcs.len() {
        lemma_totals_grow(tcs, k + 1);
        assert(tcs.take(k + 1).drop_last() =~= tcs.take(k));
    } else {
        assert(tcs.take(k) =~= tcs);
    }
}

proof fn lemma_total_cases_mono(tcs: Seq<TestCase>, a: int, b: int)
    requires
        0 <= a <= b <= tcs.len(),
    ensures
        0 <= total_cases(tcs.take(a)) <= total_cases(tcs.take(b)),
    decreases b - a,
{
    if a < b {
        lemma_total_cases_mono(tcs, a, b - 1);
        assert(tcs.take(b).drop_last() =~= tcs.take(b - 1));
    } else {
        lemma_total_cases_nonneg(tcs.take(a));
    }
}

proof fn lemma_total_cases_nonneg(tcs: Seq<TestCase>)
    ensures
        total_cases(tcs) >= 0,
    decreases tcs.len(),
{
    if tcs.len() > 0 {
        lemma_total_cases_nonneg(tcs.drop_last());
    }
}

impl TestResult {
    /// The junit suite of this rules file (see [`suite_of`]). Its error and failure totals are
    /// those of the cases under it.
    pub fn build_test_suite(&self) -> (r: TestSuite)
        requires
            suite_fits(*self),
        ensures
            suite_of(*self, r),
            r.errors == errors_in(r.test_cases@),
            r.failures == failures_in(r.test_cases@),
    {
        match self {
            TestResult::Unreadable(u) => {
                let mut cases: Vec<JunitTestCase> = Vec::new();
                cases.push(
                    JunitTestCase {
                        id: None,
                        name: u.rule_file.clone(),
                        time: u.time,
                        status: TestCaseStatus::Error { error: u.error.clone() },
                    },
                );
                assert(cases@.drop_last() =~= Seq::<JunitTestCase>::empty());
                assert(errors_in(cases@.drop_last()) == 0 && failures_in(cases@.drop_last()) == 0);
                TestSuite::new(u.rule_file.clone(), cases, u.time, 1, 0)
            },
            TestResult::Evaluated(ok) => {
                let ghost tcs = ok.test_cases@;
                let mut cases: Vec<JunitTestCase> = Vec::new();
                let mut errors: usize = 0;
                let mut failures: usize = 0;
                let mut time: u128 = 0;
                let mut k: usize = 0;
                while k < ok.test_cases.len()
                    invariant
                        tcs == ok.test_cases@,
                        k <= tcs.len(),
                        total_errors(tcs) <= usize::MAX,
                        total_failures(tcs) <= usize::MAX,
                        total_time(tcs) <= u128::MAX,
                        suite_cases_of(tcs.take(k as int), cases@),
                        errors == total_errors(tcs.take(k as int)),
                        failures == total_failures(tcs.take(k as int)),
                        time == total_time(tcs.take(k as int)),
                        errors == errors_in(cases@),
                        failures == failures_in(cases@),
                    decreases tcs.len() - k,
                {
                    let tc = &ok.test_cases[k];
                    let ghost next = tcs.take(k + 1);
                    assert(next.drop_last() =~= tcs.take(k as int));
                    assert(next.last() == *tc);
                    proof {
                        lemma_totals_grow(tcs, k + 1);
                    }
                    let mut more = build_junit_test_cases(tc);
                    let ghost before = cases@;
                    let ghost added = more@;
                    cases.append(&mut more);
                    proof {
                        lemma_counts_concat(before, added);
                        let prev = tcs.take(k as int);
                        assert(next.drop_last() =~= prev);
                        assert(cases@.len() == total_cases(next));
                        assert forall|i: int| 0 <= i < next.len() implies junit_cases_of(
                            #[trigger] next[i],
                            cases@.subrange(total_cases(next.take(i)), total_cases(next.take(i + 1))),
                        ) by {
                            if i < k {
                                assert(next.take(i) =~= prev.take(i));
                                assert(next.take(i + 1) =~= prev.take(i + 1));
                                assert(next[i] == prev[i]);
                                lemma_total_cases_mono(prev, i, i + 1);
                                lemma_total_cases_mono(prev, i + 1, k as int);
                                assert(prev.take(k as int) =~= prev);
                                assert(junit_cases_of(
                                    prev[i],
                                    before.subrange(total_cases(prev.take(i)), total_cases(prev.take(i + 1))),
                                ));
                                assert(cases@.subrange(total_cases(prev.take(i)), total_cases(prev.take(i + 1)))
                                    =~= before.subrange(total_cases(prev.take(i)), total_cases(prev.take(i + 1))));
                            } else {
                                assert(next.take(i) =~= prev);
                                assert(next.take(i + 1) =~= next);
                                assert(cases@.subrange(before.len() as int, cases@.len() as int) =~= added);
                            }
                        }
                    }
                    errors = errors + tc.number_of_errors();
                    failures = failures + tc.number_of_failures();
                    time = time + tc.time;
                    k += 1;
                }
                assert(tcs.take(k as int) =~= tcs);
                TestSuite::new(ok.rule_file.clone(), cases, time, errors, failures)
            },
        }
    }
}

// ---------------------------------------------------------------------------------------------
// The report
// ---------------------------------------------------------------------------------------------

/// The errors of the suite of `result`.
pub open spec fn result_errors(result: TestResult) -> int {
    match result {
        TestResult::Unreadable(_) => 1,
        TestResult::Evaluated(ok) => total_errors(ok.test_cases@),
    }
}

/// The failures of the suite of `result`.
pub open spec fn result_failures(result: TestResult) -> int {
    match result {
        TestResult::Unreadable(_) => 0,
        TestResult::Evaluated(ok) => total_failures(ok.test_cases@),
    }
}

/// The cases of the suite of `result`.
pub open spec fn result_tests(result: TestResult) -> int {
    match result {
        TestResult::Unreadable(_) => 1,
        TestResult::Evaluated(ok) => total_cases(ok.test_cases@),
    }
}

/// The time of the suite of `result`.
pub open spec fn result_time(result: TestResult) -> int {
    match result {
        TestResult::Unreadable(u) => u.time as int,
        TestResult::Evaluated(ok) => total_time(ok.test_cases@),
    }
}

/// `f` of each of `results`, added up.
pub open spec fn summed(results: Seq<TestResult>, f: spec_fn(TestResult) -> int) -> int
    decreases results.len(),
{
    if results.len() == 0 {
        0
    } else {
        summed(results.drop_last(), f) + f(results.last())
    }
}

proof fn lemma_summed_grow(results: Seq<TestResult>, f: spec_fn(TestResult) -> int, k: int)
    requires
        0 <= k <= results.len(),
        forall|r: TestResult| #[trigger] f(r) >= 0,
    ensures
        0 <= summed(results.take(k), f) <= summed(results, f),
    decreases results.len() - k,
{
    if k < results.len() {
        lemma_summed_grow(results, f, k + 1);
        lemma_summed_nonneg(results.take(k), f);
        assert(results.take(k + 1).drop_last() =~= results.take(k));
        assert(f(results.take(k + 1).last()) >= 0);
    } else {
        assert(results.take(k) =~= results);
        lemma_summed_nonneg(results, f);
    }
}

proof fn lemma_summed_nonneg(results: Seq<TestResult>, f: spec_fn(TestResult) -> int)
    requires
        forall|r: TestResult| #[trigger] f(r) >= 0,
    ensures
        summed(results, f) >= 0,
    decreases results.len(),
{
    if results.len() > 0 {
        lemma_summed_nonneg(results.drop_last(), f);
        assert(f(results.last()) >= 0);
    }
}

proof fn lemma_result_totals_nonneg(r: TestResult)
    ensures
        result_errors(r) >= 0,
        result_failures(r) >= 0,
        result_tests(r) >= 0,
        result_time(r) >= 0,
{
    match r {
        TestResult::Unreadable(_) => {},
        TestResult::Evaluated(ok) => {
            lemma_totals_grow(ok.test_cases@, 0);
            assert(ok.test_cases@.take(0) =~= Seq::<TestCase>::empty());
            lemma_total_cases_nonneg(ok.test_cases@);
        },
    }
}

/// The totals of a report over `results` fit the integers that hold them.
pub open spec fn report_fits(results: Seq<TestResult>) -> bool {
    &&& forall|i: int| 0 <= i < results.len() ==> suite_fits(#[trigger] results[i])
    &&& summed(results, |r: TestResult| result_errors(r)) <= usize::MAX
    &&& summed(results, |r: TestResult| result_failures(r)) <= usize::MAX
    &&& summed(results, |r: TestResult| result_tests(r)) <= usize::MAX
    &&& summed(results, |r: TestResult| result_time(r)) <= u128::MAX
}

impl JunitReport {
    /// The junit report of a run over `results`: a suite for each, in order, with the totals of
    /// the suites added up.
    pub fn from_results(results: &Vec<TestResult>) -> (r: JunitReport)
        requires
            report_fits(results@),
        ensures
            r.name@ == "cfn-guard test report"@,
            r.test_suites@.len() == results@.len(),
            forall|i: int|
                0 <= i < results@.len() ==> {
                    &&& suite_of(results@[i], #[trigger] r.test_suites@[i])
                    &&& r.test_suites@[i].errors == errors_in(r.test_suites@[i].test_cases@)
                    &&& r.test_suites@[i].failures == failures_in(r.test_suites@[i].test_cases@)
                },
            r.errors == summed(results@, |x: TestResult| result_errors(x)),
            r.failures == summed(results@, |x: TestResult| result_failures(x)),
            r.tests == summed(results@, |x: TestResult| result_tests(x)),
            r.duration == summed(results@, |x: TestResult| result_time(x)),
    {
        let ghost rs = results@;
        let ghost fe = |x: TestResult| result_errors(x);
        let ghost ff = |x: TestResult| result_failures(x);
        let ghost ft = |x: TestResult| result_tests(x);
        let ghost fd = |x: TestResult| result_time(x);
        proof {
            assert forall|x: TestResult| #[trigger] fe(x) >= 0 by {
                lemma_result_totals_nonneg(x);
            }
            assert forall|x: TestResult| #[trigger] ff(x) >= 0 by {
                lemma_result_totals_nonneg(x);
            }
            assert forall|x: TestResult| #[trigger] ft(x) >= 0 by {
                lemma_result_totals_nonneg(x);
            }
            assert forall|x: TestResult| #[trigger] fd(x) >= 0 by {
                lemma_result_totals_nonneg(x);
            }
        }
        let mut suites: Vec<TestSuite> = Vec::new();
        let mut errors: usize = 0;
        let mut failures: usize = 0;
        let mut tests: usize = 0;
        let mut time: u128 = 0;
        let mut k: usize = 0;
        while k < results.len()
            invariant
                rs == results@,
                k <= rs.len(),
                report_fits(rs),
                forall|x: TestResult| #[trigger] fe(x) >= 0,
                forall|x: TestResult| #[trigger] ff(x) >= 0,
                forall|x: TestResult| #[trigger] ft(x) >= 0,
                forall|x: TestResult| #[trigger] fd(x) >= 0,
                fe == (|x: TestResult| result_errors(x)),
                ff == (|x: TestResult| result_failures(x)),
                ft == (|x: TestResult| result_tests(x)),
                fd == (|x: TestResult| result_time(x)),
                suites@.len() == k,
                forall|i: int|
                    0 <= i < k ==> {
                        &&& suite_of(rs[i], #[trigger] suites@[i])
                        &&& suites@[i].errors == errors_in(suites@[i].test_cases@)
                        &&& suites@[i].failures == failures_in(suites@[i].test_cases@)
                    },
                errors == summed(rs.take(k as int), fe),
                failures == summed(rs.take(k as int), ff),
                tests == summed(rs.take(k as int), ft),
                time == summed(rs.take(k as int), fd),
            decreases rs.len() - k,
        {
            let ghost next = rs.take(k + 1);
            assert(next.drop_last() =~= rs.take(k as int));
            assert(next.last() == rs[k as int]);
            proof {
                lemma_summed_grow(rs, fe, k + 1);
                lemma_summed_grow(rs, ff, k + 1);
                lemma_summed_grow(rs, ft, k + 1);
                lemma_summed_grow(rs, fd, k + 1);
                assert(suite_fits(rs[k as int]));
            }
            let suite = results[k].build_test_suite();
            proof {
                match rs[k as int] {
                    TestResult::Unreadable(_) => {},
                    TestResult::Evaluated(ok) => {
                        assert(suite.test_cases@.len() == total_cases(ok.test_cases@));
                    },
                }
            }
            errors = errors + suite.errors;
            failures = failures + suite.failures;
            tests = tests + suite.test_cases.len();
            time = time + suite.time;
            suites.push(suite);
            k += 1;
        }
        assert(rs.take(k as int) =~= rs);
        JunitReport {
            name: string_of("cfn-guard test report"),
            test_suites: suites,
            failures,
            errors,
            tests,
            duration: time,
        }
    }
}

} // verus!
