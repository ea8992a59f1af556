//! The decisions of a validation's junit report: the name a failing test case is reported by,
//! what its failure says, and the exit status the report makes.
use vstd::prelude::*;

use crate::commands::junit::FailingTestCase;
use crate::commands::sarif::Messages;
use crate::commands::tf::{first_occurrence_from, find_from, lemma_first_occurrence_is_least};
use crate::commands::{ERROR_STATUS_CODE, FAILURE_STATUS_CODE, SUCCESS_STATUS_CODE};
use crate::text::{chars_of, string_from_chars};

verus! {

/// What separates a rules file's name from a rule's in a qualified rule name.
pub open spec fn guard_file_marker() -> Seq<char> {
    seq!['.', 'g', 'u', 'a', 'r', 'd', '/']
}

/// The name a failing rule is reported by: for a name qualified by its rules file, the part
/// after the first `.guard/`, up to a second one if there is one; any other name as it is.
pub open spec fn reported_rule_name(name: Seq<char>) -> Seq<char> {
    let m = guard_file_marker();
    match first_occurrence_from(name, m, 0) {
        None => name,
        Some(at) => match first_occurrence_from(name, m, at + m.len()) {
            Some(end) => name.subrange(at + m.len(), end),
            None => name.subrange(at + m.len(), name.len() as int),
        },
    }
}

/// The name the failing rule `name` is reported by (see [`reported_rule_name`]).
pub fn rule_name_for_report(name: &str) -> (r: String)
    ensures
        r@ == reported_rule_name(name@),
{
    let cs = chars_of(name);
    let marker = chars_of(".guard/");
    proof {
        reveal_strlit(".guard/");
        assert(marker@ =~= guard_file_marker());
    }
    let n = cs.len();
    let at = match find_from(&cs, &marker, 0) {
        None => {
            return string_from_chars(&cs);
        },
        Some(at) => at,
    };
    proof {
        lemma_first_occurrence_is_least(cs@, marker@, 0);
    }
    let start = at + marker.len();
    let end = match find_from(&cs, &marker, start) {
        Some(e) => {
            proof {
                lemma_first_occurrence_is_least(cs@, marker@, start as int);
            }
            e
        },
        None => n,
    };
    let mut out: Vec<char> = Vec::new();
    let mut i: usize = start;
    while i < end
        invariant
            cs@ == name@,
            start <= i <= end <= cs@.len(),
            out@ =~= cs@.subrange(start as int, i as int),
        decreases end - i,
    {
        out.push(cs[i]);
        i += 1;
    }
    string_from_chars(&out)
}

/// What the failing test case of a rules file says, from its findings in order: each finding is
/// the name of the rule it reports on, when it reports on a whole rule, and its messages. The
/// messages are all of theirs in order; the name is that of the last whole-rule finding with a
/// message, as its rules file's report names it.
pub open spec fn failing_case_of(findings: Seq<(Option<String>, Vec<Messages>)>) -> (
    Option<Seq<char>>,
    Seq<Messages>,
)
    decreases findings.len(),
{
    if findings.len() == 0 {
        (None, Seq::empty())
    } else {
        let (name, messages) = failing_case_of(findings.drop_last());
        let (rule, found) = findings.last();
        (
            match rule {
                Some(r) => if found@.len() > 0 {
                    Some(reported_rule_name(r@))
                } else {
                    name
                },
                None => name,
            },
            messages + found@,
        )
    }
}

/// The failing test case of a rules file with the findings `findings` (see [`failing_case_of`]).
pub fn failing_test_case(findings: Vec<(Option<String>, Vec<Messages>)>) -> (r: FailingTestCase)
    ensures
        (match r.name {
            Some(n) => Some(n@),
            None => None::<Seq<char>>,
        }, r.messages@) == failing_case_of(findings@),
{
    let ghost all = findings@;
    let n = findings.len();
    let mut rest = findings;
    let mut name: Option<String> = None;
    let mut messages: Vec<Messages> = Vec::new();
    let mut k: usize = 0;
    assert(rest@ =~= all.skip(0));
    while rest.len() > 0
        invariant
            n == all.len(),
            k <= all.len(),
            rest@ == all.skip(k as int),
            (match name {
                Some(x) => Some(x@),
                None => None::<Seq<char>>,
            }, messages@) == failing_case_of(all.take(k as int)),
        decreases rest.len(),
    {
        let ghost next = all.take(k + 1);
        assert(next.drop_last() =~= all.take(k as int));
        let (rule, mut found) = rest.remove(0);
        assert(next.last() == (rule, found));
        assert(rest@ =~= all.skip(k + 1));
        let ghost found_view = found@;
        if found.len() > 0 {
            if let Some(r) = &rule {
                name = Some(rule_name_for_report(r.as_str()));
            }
        }
        messages.append(&mut found);
        assert(messages@ =~= failing_case_of(all.take(k as int)).1 + found_view);
        k += 1;
    }
    assert(all.take(k as int) =~= all);
    FailingTestCase { name, messages }
}

/// The exit status of a validation's junit report: an error when a rules file could not be
/// evaluated, else a failure when one was not met, else success.
pub open spec fn junit_status(errors: nat, failures: nat) -> i32 {
    if errors > 0 {
        ERROR_STATUS_CODE
    } else if failures > 0 {
        FAILURE_STATUS_CODE
    } else {
        SUCCESS_STATUS_CODE
    }
}

/// The exit status of a validation's junit report with `total_errors` errors and
/// `total_failures` failures over its suites.
pub fn junit_exit_code(total_errors: usize, total_failures: usize) -> (r: i32)
    ensures
        r == junit_status(total_errors as nat, total_failures as nat),
{
    if total_errors > 0 {
        ERROR_STATUS_CODE
    } else if total_failures > 0 {
        FAILURE_STATUS_CODE
    } else {
        SUCCESS_STATUS_CODE
    }
}

} // verus!
