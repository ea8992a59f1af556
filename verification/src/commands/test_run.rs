//! What the rules files of a `test` run came to, and the exit status and reports that makes:
//! the decisions the run takes between reading files and evaluating rules.
use vstd::prelude::*;

use crate::commands::reporting::{result_exit_code, TestResult, UnreadableFile};
use crate::commands::test::{
    combined_exit_code, get_exit_code, law_exit_code_is_the_worst, severity, test_exit_code,
};
use crate::commands::{SUCCESS_STATUS_CODE, TEST_ERROR_STATUS_CODE, TEST_FAILURE_STATUS_CODE};
use crate::text::{push_str, string_of};

verus! {

// ---------------------------------------------------------------------------------------------
// Reports in plain text
// ---------------------------------------------------------------------------------------------

/// How one rules file of a run reported in plain text went.
pub enum PlainOutcome {
    /// No test file belongs to it, so it was skipped.
    Untested,
    /// It could not be read, for the reason `error`.
    Unreadable { error: String },
    /// It did not parse.
    Unparsable,
    /// It declares no rules; `dropped` says whether its test files held an expectation, or one
    /// could not be read.
    NoRules { dropped: bool },
    /// Its tests ran, and their report gave this exit status.
    Tested(i32),
}

/// The exit status of a directory reported in plain text after `o`, given `exit_code` before it:
/// an unparsable rules file makes it a failure, a test run sets it only while it is still
/// success, and expectations left unchecked for want of rules make it an error.
pub open spec fn plain_directory_after(exit_code: i32, o: PlainOutcome) -> i32 {
    match o {
        PlainOutcome::Unparsable => TEST_FAILURE_STATUS_CODE,
        PlainOutcome::Tested(t) => if exit_code == SUCCESS_STATUS_CODE {
            t
        } else {
            exit_code
        },
        PlainOutcome::NoRules { dropped } => if dropped {
            TEST_ERROR_STATUS_CODE
        } else {
            exit_code
        },
        _ => exit_code,
    }
}

/// The exit status of a directory reported in plain text whose rules files went as `outcomes`,
/// in order, when each of them could be read.
pub open spec fn plain_directory_status(outcomes: Seq<PlainOutcome>) -> i32
    decreases outcomes.len(),
{
    if outcomes.len() == 0 {
        SUCCESS_STATUS_CODE
    } else {
        plain_directory_after(plain_directory_status(outcomes.drop_last()), outcomes.last())
    }
}

/// Whether a rules file's outcome on its own marks a plain-text directory run as not successful.
pub open spec fn plain_outcome_marks(o: PlainOutcome) -> bool {
    match o {
        PlainOutcome::Unparsable => true,
        PlainOutcome::NoRules { dropped } => dropped,
        PlainOutcome::Tested(t) => t != SUCCESS_STATUS_CODE,
        _ => false,
    }
}

/// A plain-text directory run succeeds exactly when no rules file failed to parse, lost an
/// expectation for want of rules, or had its tests end in anything but success.
pub proof fn law_plain_directory_succeeds_only_when_every_file_did(outcomes: Seq<PlainOutcome>)
    ensures
        plain_directory_status(outcomes) == SUCCESS_STATUS_CODE <==> forall|i: int|
            0 <= i < outcomes.len() ==> !plain_outcome_marks(#[trigger] outcomes[i]),
    decreases outcomes.len(),
{
    if outcomes.len() > 0 {
        let d = outcomes.drop_last();
        law_plain_directory_succeeds_only_when_every_file_did(d);
        assert forall|i: int| 0 <= i < d.len() implies #[trigger] d[i] == outcomes[i] by {}
        if forall|i: int| 0 <= i < outcomes.len() ==> !plain_outcome_marks(#[trigger] outcomes[i]) {
            assert forall|i: int| 0 <= i < d.len() implies !plain_outcome_marks(#[trigger] d[i]) by {
                assert(d[i] == outcomes[i]);
            }
            assert(!plain_outcome_marks(outcomes[outcomes.len() - 1]));
        } else {
            let i = choose|i: int| 0 <= i < outcomes.len() && plain_outcome_marks(#[trigger] outcomes[i]);
            if i < d.len() {
                assert(d[i] == outcomes[i]);
                assert(plain_outcome_marks(d[i]));
            } else {
                assert(outcomes.last() == outcomes[i]);
            }
        }
    }
}

/// The first rules file of `outcomes` that could not be read, if one could not.
pub open spec fn first_unreadable(outcomes: Seq<PlainOutcome>) -> Option<int>
    decreases outcomes.len(),
{
    if outcomes.len() == 0 {
        None
    } else {
        match first_unreadable(outcomes.drop_last()) {
            Some(i) => Some(i),
            None => if outcomes.last() is Unreadable {
                Some(outcomes.len() - 1)
            } else {
                None
            },
        }
    }
}

/// The exit status of a directory reported in plain text, or the reason the first rules file
/// that could not be read gave, which ends the run.
pub fn plain_directory_exit_code(outcomes: &Vec<PlainOutcome>) -> (r: Result<i32, String>)
    ensures
        match first_unreadable(outcomes@) {
            Some(i) => r matches Err(e) && outcomes@[i] matches PlainOutcome::Unreadable { error }
                && e@ == error@,
            None => r == Ok::<i32, String>(plain_directory_status(outcomes@)),
        },
{
    let mut exit_code: i32 = SUCCESS_STATUS_CODE;
    let mut i: usize = 0;
    while i < outcomes.len()
        invariant
            i <= outcomes@.len(),
            first_unreadable(outcomes@.take(i as int)) is None,
            exit_code == plain_directory_status(outcomes@.take(i as int)),
        decreases outcomes.len() - i,
    {
        let ghost next = outcomes@.take(i + 1);
        assert(next.drop_last() =~= outcomes@.take(i as int));
        assert(next.last() == outcomes@[i as int]);
        match &outcomes[i] {
            PlainOutcome::Unreadable { error } => {
                proof {
                    lemma_first_unreadable_prefix(outcomes@, i + 1);
                }
                return Err(error.clone());
            },
            PlainOutcome::Unparsable => {
                exit_code = TEST_FAILURE_STATUS_CODE;
            },
            PlainOutcome::Tested(t) => {
                if exit_code == SUCCESS_STATUS_CODE {
                    exit_code = *t;
                }
            },
            PlainOutcome::NoRules { dropped } => {
                if *dropped {
                    exit_code = TEST_ERROR_STATUS_CODE;
                }
            },
            PlainOutcome::Untested => {},
        }
        i += 1;
    }
    assert(outcomes@.take(i as int) =~= outcomes@);
    Ok(exit_code)
}

/// Once a prefix has an unreadable rules file, the whole run has the same first one.
proof fn lemma_first_unreadable_prefix(outcomes: Seq<PlainOutcome>, n: int)
    requires
        0 <= n <= outcomes.len(),
        first_unreadable(outcomes.take(n)) is Some,
    ensures
        first_unreadable(outcomes) == first_unreadable(outcomes.take(n)),
        first_unreadable(outcomes)->Some_0 < n,
    decreases outcomes.len() - n,
{
    if n == outcomes.len() {
        assert(outcomes.take(n) =~= outcomes);
    } else {
        assert(outcomes.take(n + 1).drop_last() =~= outcomes.take(n));
        lemma_first_unreadable_prefix(outcomes, n + 1);
    }
    lemma_first_unreadable_bound(outcomes.take(n));
}

/// The first unreadable rules file is one of them, and is unreadable.
proof fn lemma_first_unreadable_bound(outcomes: Seq<PlainOutcome>)
    ensures
        first_unreadable(outcomes) matches Some(i) ==> 0 <= i < outcomes.len()
            && outcomes[i] is Unreadable,
    decreases outcomes.len(),
{
    if outcomes.len() > 0 {
        lemma_first_unreadable_bound(outcomes.drop_last());
    }
}

/// The exit status of a single rules file reported in plain text: an error when it could not be
/// read or parsed, or when expectations went unchecked for want of rules; otherwise what its
/// report gave, or success.
pub open spec fn plain_single_status(o: PlainOutcome) -> i32 {
    match o {
        PlainOutcome::Tested(t) => t,
        PlainOutcome::NoRules { dropped } => if dropped {
            TEST_ERROR_STATUS_CODE
        } else {
            SUCCESS_STATUS_CODE
        },
        _ => TEST_ERROR_STATUS_CODE,
    }
}

/// The exit status of a single rules file reported in plain text, which is tested whether or
/// not test files were found.
pub fn plain_single_exit_code(outcome: &PlainOutcome) -> (r: i32)
    requires
        !(*outcome is Untested),
    ensures
        r == plain_single_status(*outcome),
{
    match outcome {
        PlainOutcome::Tested(t) => *t,
        PlainOutcome::NoRules { dropped } => if *dropped {
            TEST_ERROR_STATUS_CODE
        } else {
            SUCCESS_STATUS_CODE
        },
        _ => TEST_ERROR_STATUS_CODE,
    }
}

/// The line that says a rules file at `path` was skipped for want of tests.
pub open spec fn untested_text(path: Seq<char>) -> Seq<char> {
    "Guard File "@ + path + " did not have any tests associated, skipping."@
}

/// The line that says a rules file at `path` was skipped for want of tests.
pub fn untested_message(path: &str) -> (r: String)
    ensures
        r@ == untested_text(path@),
{
    let mut m = string_of("Guard File ");
    push_str(&mut m, path);
    push_str(&mut m, " did not have any tests associated, skipping.");
    m
}

/// The line that opens the report of the rules file at `path`.
pub open spec fn testing_text(path: Seq<char>) -> Seq<char> {
    "Testing Guard File "@ + path
}

/// The line that opens the report of the rules file at `path`.
pub fn testing_message(path: &str) -> (r: String)
    ensures
        r@ == testing_text(path@),
{
    let mut m = string_of("Testing Guard File ");
    push_str(&mut m, path);
    m
}

/// The line that reports the parse error `error` of a rules file.
pub open spec fn parse_error_text(error: Seq<char>) -> Seq<char> {
    "Parse Error on ruleset file "@ + error
}

/// The line that reports the parse error `error` of a rules file.
pub fn parse_error_message(error: &str) -> (r: String)
    ensures
        r@ == parse_error_text(error@),
{
    let mut m = string_of("Parse Error on ruleset file ");
    push_str(&mut m, error);
    m
}

// ---------------------------------------------------------------------------------------------
// Structured reports
// ---------------------------------------------------------------------------------------------

/// How one rules file of a run with a structured report went.
pub enum StructuredOutcome {
    /// No test file belongs to it, so it was skipped.
    Untested,
    /// It could not be read or parsed; the report says so.
    Unusable(UnreadableFile),
    /// It declares no rules; `dropped` says whether its test files held an expectation, or one
    /// could not be read.
    NoRules { dropped: bool },
    /// Its tests ran, with this report.
    Tested(TestResult),
}

/// The report a rules file contributes to a structured report, if it contributes one.
pub open spec fn outcome_report(o: StructuredOutcome) -> Option<TestResult> {
    match o {
        StructuredOutcome::Unusable(u) => Some(TestResult::Unreadable(u)),
        StructuredOutcome::Tested(t) => Some(t),
        _ => None,
    }
}

/// The reports of `outcomes`, in order, leaving out rules files that contribute none.
pub open spec fn outcome_reports(outcomes: Seq<StructuredOutcome>) -> Seq<TestResult>
    decreases outcomes.len(),
{
    if outcomes.len() == 0 {
        Seq::empty()
    } else {
        outcome_reports(outcomes.drop_last()) + match outcome_report(outcomes.last()) {
            Some(r) => seq![r],
            None => Seq::empty(),
        }
    }
}

/// The exit status of a directory with a structured report after `o`, given `exit_code` before
/// it: a rules file that could not be used, or expectations left unchecked for want of rules,
/// make it an error; a test run's status combines with it, the worse winning.
pub open spec fn structured_directory_after(exit_code: i32, o: StructuredOutcome) -> i32 {
    match o {
        StructuredOutcome::Unusable(_) => TEST_ERROR_STATUS_CODE,
        StructuredOutcome::NoRules { dropped } => if dropped {
            TEST_ERROR_STATUS_CODE
        } else {
            exit_code
        },
        StructuredOutcome::Tested(t) => combined_exit_code(exit_code, result_exit_code(t)),
        StructuredOutcome::Untested => exit_code,
    }
}

/// The exit status of a directory with a structured report whose rules files went as
/// `outcomes`, in order.
pub open spec fn structured_directory_status(outcomes: Seq<StructuredOutcome>) -> i32
    decreases outcomes.len(),
{
    if outcomes.len() == 0 {
        SUCCESS_STATUS_CODE
    } else {
        structured_directory_after(
            structured_directory_status(outcomes.drop_last()),
            outcomes.last(),
        )
    }
}

/// The exit status one rules file makes on its own in a directory with a structured report.
pub open spec fn outcome_status(o: StructuredOutcome) -> i32 {
    structured_directory_after(SUCCESS_STATUS_CODE, o)
}

/// How bad the worst of the statuses `outcomes` make on their own is.
pub open spec fn worst_severity(outcomes: Seq<StructuredOutcome>) -> int
    decreases outcomes.len(),
{
    if outcomes.len() == 0 {
        0
    } else {
        let rest = worst_severity(outcomes.drop_last());
        let last = severity(outcome_status(outcomes.last()));
        if rest >= last {
            rest
        } else {
            last
        }
    }
}

/// The exit status of a directory with a structured report is that of its worst rules file, so
/// it does not depend on the order the directory walk took them in: an error if any made one,
/// else a failure if any made one, else success.
pub proof fn law_directory_status_is_the_worst_rules_file(outcomes: Seq<StructuredOutcome>)
    ensures
        test_exit_code(structured_directory_status(outcomes)),
        severity(structured_directory_status(outcomes)) == worst_severity(outcomes),
    decreases outcomes.len(),
{
    if outcomes.len() > 0 {
        law_directory_status_is_the_worst_rules_file(outcomes.drop_last());
        let before = structured_directory_status(outcomes.drop_last());
        let o = outcomes.last();
        match o {
            StructuredOutcome::Tested(t) => {
                law_exit_code_is_the_worst(before, result_exit_code(t));
                law_exit_code_is_the_worst(SUCCESS_STATUS_CODE, result_exit_code(t));
            },
            _ => {},
        }
    }
}

/// The reports a directory with a structured report lists, in order, and its exit status.
pub fn structured_directory_report(outcomes: Vec<StructuredOutcome>) -> (r: (Vec<TestResult>, i32))
    ensures
        r.0@ == outcome_reports(outcomes@),
        r.1 == structured_directory_status(outcomes@),
{
    let n = outcomes.len();
    let ghost all = outcomes@;
    let mut results: Vec<TestResult> = Vec::new();
    let mut exit_code: i32 = SUCCESS_STATUS_CODE;
    let mut rest = outcomes;
    let mut i: usize = 0;
    assert(rest@ =~= all.skip(0));
    while rest.len() > 0
        invariant
            n == all.len(),
            i <= all.len(),
            rest@ == all.skip(i as int),
            results@ == outcome_reports(all.take(i as int)),
            exit_code == structured_directory_status(all.take(i as int)),
        decreases rest.len(),
    {
        let o = rest.remove(0);
        assert(o == all[i as int]);
        assert(rest@ =~= all.skip(i + 1));
        let ghost next = all.take(i + 1);
        assert(next.drop_last() =~= all.take(i as int));
        assert(next.last() == o);
        proof {
            law_directory_status_is_the_worst_rules_file(all.take(i as int));
        }
        match o {
            StructuredOutcome::Unusable(u) => {
                exit_code = TEST_ERROR_STATUS_CODE;
                results.push(TestResult::Unreadable(u));
            },
            StructuredOutcome::NoRules { dropped } => {
                if dropped {
                    exit_code = TEST_ERROR_STATUS_CODE;
                }
            },
            StructuredOutcome::Tested(t) => {
                let test_code = t.get_exit_code();
                exit_code = get_exit_code(exit_code, test_code);
                results.push(t);
            },
            StructuredOutcome::Untested => {},
        }
        assert(results@ =~= outcome_reports(next));
        i += 1;
    }
    assert(all.take(i as int) =~= all);
    (results, exit_code)
}

/// The exit status of a single rules file with a structured report: what its report gives when
/// its tests ran, an error when expectations went unchecked for want of rules, and otherwise
/// success, also for a rules file that could not be read or parsed, whose report says so.
pub open spec fn structured_single_status(o: StructuredOutcome) -> i32 {
    match o {
        StructuredOutcome::Tested(t) => result_exit_code(t),
        StructuredOutcome::NoRules { dropped } => if dropped {
            TEST_ERROR_STATUS_CODE
        } else {
            SUCCESS_STATUS_CODE
        },
        _ => SUCCESS_STATUS_CODE,
    }
}

/// The report of a single rules file with a structured report, if one is written (none for a
/// rules file that declares no rules), and the exit status.
pub fn structured_single_report(outcome: StructuredOutcome) -> (r: (Option<TestResult>, i32))
    requires
        !(outcome is Untested),
    ensures
        r.0 == outcome_report(outcome),
        r.1 == structured_single_status(outcome),
{
    match outcome {
        StructuredOutcome::Tested(t) => {
            let code = t.get_exit_code();
            (Some(t), code)
        },
        StructuredOutcome::Unusable(u) => (Some(TestResult::Unreadable(u)), SUCCESS_STATUS_CODE),
        StructuredOutcome::NoRules { dropped } => {
            if dropped {
                (None, TEST_ERROR_STATUS_CODE)
            } else {
                (None, SUCCESS_STATUS_CODE)
            }
        },
        StructuredOutcome::Untested => (None, SUCCESS_STATUS_CODE),
    }
}

} // verus!
