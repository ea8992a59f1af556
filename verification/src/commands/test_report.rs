//! The plain-text report of one test case: the verdict records grouped by rule, each compared
//! with its expectation, and the lines that say how that went.
use vstd::prelude::*;

use crate::commands::junit::{status_name, status_text};
use crate::commands::reporting::{
    evaluate_result, get_status_result, status_result, FailedRule, PassedRule, RecordResult,
    RecordType, SkippedRule, Status, TestCase, UncheckedExpectation,
};
use crate::sorted::strictly_sorted;
use crate::text::{
    join, lemma_seq_lt_irreflexive, lemma_seq_lt_total, lemma_seq_lt_transitive, push_str, seq_lt,
    str_eq, str_lt, string_of, views,
};

verus! {

/// The rule a record gives the verdict of, if it is a rule's verdict.
pub open spec fn rule_name_of(record: Option<RecordType>) -> Option<Seq<char>> {
    match record {
        Some(RecordType::RuleCheck(ns)) => Some(ns.name@),
        _ => None,
    }
}

/// The records of `records` that are verdicts of the rule `name`, in order.
pub open spec fn records_named(records: Seq<Option<RecordType>>, name: Seq<char>) -> Seq<
    Option<RecordType>,
>
    decreases records.len(),
{
    if records.len() == 0 {
        Seq::empty()
    } else {
        let r = records_named(records.drop_last(), name);
        if rule_name_of(records.last()) == Some(name) {
            r.push(records.last())
        } else {
            r
        }
    }
}

/// The rules `records` hold verdicts of.
pub open spec fn rule_names(records: Seq<Option<RecordType>>) -> Set<Seq<char>> {
    Set::new(
        |n: Seq<char>|
            exists|i: int| 0 <= i < records.len() && rule_name_of(#[trigger] records[i]) == Some(n),
    )
}

/// The names of `groups`, in order.
pub open spec fn group_names(groups: Seq<(String, Vec<&Option<RecordType>>)>) -> Seq<Seq<char>> {
    groups.map_values(|g: (String, Vec<&Option<RecordType>>)| g.0@)
}

/// The records of a group, as values.
pub open spec fn group_records(records: Seq<&Option<RecordType>>) -> Seq<Option<RecordType>> {
    records.map_values(|r: &Option<RecordType>| *r)
}

/// `groups` holds, for each rule with a verdict among `records`, in name order, its verdicts in
/// the order they were recorded.
pub open spec fn grouped_by_rule(
    records: Seq<Option<RecordType>>,
    groups: Seq<(String, Vec<&Option<RecordType>>)>,
) -> bool {
    &&& strictly_sorted(group_names(groups))
    &&& group_names(groups).to_set() == rule_names(records)
    &&& forall|j: int|
        0 <= j < groups.len() ==> group_records((#[trigger] groups[j]).1@) == records_named(
            records,
            groups[j].0@,
        )
}

/// One more record adds its rule when it is a verdict.
proof fn lemma_rule_names_push(records: Seq<Option<RecordType>>, r: Option<RecordType>)
    ensures
        rule_names(records.push(r)) == match rule_name_of(r) {
            Some(n) => rule_names(records).insert(n),
            None => rule_names(records),
        },
{
    let n = records.push(r);
    let expected = match rule_name_of(r) {
        Some(x) => rule_names(records).insert(x),
        None => rule_names(records),
    };
    assert forall|x: Seq<char>| rule_names(n).contains(x) <==> expected.contains(x) by {
        if rule_names(n).contains(x) {
            let i = choose|i: int| 0 <= i < n.len() && rule_name_of(#[trigger] n[i]) == Some(x);
            if i < records.len() {
                assert(n[i] == records[i]);
            }
        }
        if rule_names(records).contains(x) {
            let i = choose|i: int| 0 <= i < records.len() && rule_name_of(#[trigger] records[i]) == Some(x);
            assert(n[i] == records[i]);
        }
        if rule_name_of(r) == Some(x) {
            assert(n[records.len() as int] == r);
        }
    }
    assert(rule_names(n) =~= expected);
}

/// A rule with no verdict among `records` has no records.
proof fn lemma_records_named_empty(records: Seq<Option<RecordType>>, name: Seq<char>)
    ensures
        !rule_names(records).contains(name) ==> records_named(records, name).len() == 0,
    decreases records.len(),
{
    if records.len() > 0 {
        let d = records.drop_last();
        lemma_records_named_empty(d, name);
        if rule_names(d).contains(name) {
            let i = choose|i: int| 0 <= i < d.len() && rule_name_of(#[trigger] d[i]) == Some(name);
            assert(records[i] == d[i]);
        }
        if rule_name_of(records.last()) == Some(name) {
            assert(records[records.len() - 1] == records.last());
        }
    }
}

/// The verdict records of `records`, grouped by rule in name order (see [`grouped_by_rule`]).
pub fn get_by_rules(records: &Vec<Option<RecordType>>) -> (r: Vec<(String, Vec<&Option<RecordType>>)>)
    ensures
        grouped_by_rule(records@, r@),
{
    let mut groups: Vec<(String, Vec<&Option<RecordType>>)> = Vec::new();
    let mut i: usize = 0;
    assert(group_names(groups@).to_set() =~= rule_names(records@.take(0)));
    while i < records.len()
        invariant
            i <= records@.len(),
            grouped_by_rule(records@.take(i as int), groups@),
        decreases records.len() - i,
    {
        let ghost p = records@.take(i as int);
        let ghost n = records@.take(i + 1);
        assert(n =~= p.push(records@[i as int]));
        assert(n.drop_last() =~= p);
        assert(n.last() == records@[i as int]);
        proof {
            lemma_rule_names_push(p, records@[i as int]);
        }
        let record = &records[i];
        if let Some(RecordType::RuleCheck(ns)) = record {
            let name = ns.name.as_str();
            assert(rule_name_of(records@[i as int]) == Some(name@));
            let mut j: usize = 0;
            while j < groups.len() && str_lt(groups[j].0.as_str(), name)
                invariant
                    j <= groups@.len(),
                    forall|m: int| 0 <= m < j ==> seq_lt(#[trigger] group_names(groups@)[m], name@),
                decreases groups.len() - j,
            {
                assert(group_names(groups@)[j as int] == groups@[j as int].0@);
                j += 1;
            }
            let ghost old_groups = groups@;
            let ghost names = group_names(old_groups);
            if j < groups.len() && str_eq(groups[j].0.as_str(), name) {
                assert(names[j as int] == name@);
                let (gname, mut grecs) = groups.remove(j);
                grecs.push(record);
                groups.insert(j, (gname, grecs));
                assert(groups@ =~= old_groups.update(j as int, (gname, grecs)));
                assert(group_names(groups@) =~= names);
                assert(names.contains(name@));
                assert(group_names(groups@).to_set() =~= rule_names(n));
                assert forall|m: int| 0 <= m < groups@.len() implies group_records(
                    (#[trigger] groups@[m]).1@,
                ) == records_named(n, groups@[m].0@) by {
                    if m == j {
                        assert(group_records(grecs@) =~= group_records(old_groups[m].1@).push(
                            records@[i as int],
                        ));
                    } else {
                        assert(names[m] != names[j as int]) by {
                            if m < j {
                                lemma_seq_lt_irreflexive(names[m]);
                            } else {
                                lemma_seq_lt_irreflexive(names[j as int]);
                            }
                        }
                        assert(groups@[m] == old_groups[m]);
                    }
                }
            } else {
                proof {
                    if j < old_groups.len() {
                        lemma_seq_lt_total(names[j as int], name@);
                    }
                    assert(!names.contains(name@)) by {
                        if names.contains(name@) {
                            let m = choose|m: int| 0 <= m < names.len() && names[m] == name@;
                            if m < j {
                                lemma_seq_lt_irreflexive(name@);
                            } else if m > j {
                                assert(seq_lt(names[j as int], names[m]));
                                lemma_seq_lt_transitive(name@, names[j as int], name@);
                                lemma_seq_lt_irreflexive(name@);
                            }
                        }
                    }
                    assert(!rule_names(p).contains(name@));
                    lemma_records_named_empty(p, name@);
                }
                let mut grecs: Vec<&Option<RecordType>> = Vec::new();
                grecs.push(record);
                groups.insert(j, (ns.name.clone(), grecs));
                let ghost v = group_names(groups@);
                assert(v =~= names.insert(j as int, name@));
                assert(strictly_sorted(v)) by {
                    assert forall|a: int, b: int| 0 <= a < b < v.len() implies seq_lt(#[trigger] v[a], #[trigger] v[b]) by {
                        if j < names.len() {
                            lemma_seq_lt_total(names[j as int], name@);
                        }
                        if a < j && b == j {
                        } else if a < j && b > j {
                            if a < b - 1 {
                                assert(seq_lt(names[a], names[b - 1]));
                            }
                        } else if a == j {
                            if b - 1 > j {
                                assert(seq_lt(names[j as int], names[b - 1]));
                                lemma_seq_lt_transitive(name@, names[j as int], names[b - 1]);
                            }
                        } else if b < j {
                        } else {
                            assert(v[a] == names[a - 1] && v[b] == names[b - 1]);
                        }
                    }
                }
                assert(v.to_set() =~= rule_names(n)) by {
                    assert forall|x: Seq<char>| v.to_set().contains(x) <==> names.to_set().insert(name@).contains(x) by {
                        if v.contains(x) {
                            let m = choose|m: int| 0 <= m < v.len() && v[m] == x;
                            if m < j {
                                assert(names[m] == x);
                            } else if m > j {
                                assert(names[m - 1] == x);
                            }
                        }
                        if names.contains(x) {
                            let m = choose|m: int| 0 <= m < names.len() && names[m] == x;
                            if m < j {
                                assert(v[m] == x);
                            } else {
                                assert(v[m + 1] == x);
                            }
                        }
                        if x == name@ {
                            assert(v[j as int] == x);
                        }
                    }
                }
                assert forall|m: int| 0 <= m < groups@.len() implies group_records(
                    (#[trigger] groups@[m]).1@,
                ) == records_named(n, groups@[m].0@) by {
                    if m == j {
                        assert(group_records(grecs@) =~= seq![records@[i as int]]);
                        assert(records_named(p, name@) =~= Seq::<Option<RecordType>>::empty());
                    } else {
                        let om = if m < j {
                            m
                        } else {
                            m - 1
                        };
                        assert(groups@[m] == old_groups[om]);
                        assert(names[om] != name@) by {
                            assert(names.contains(names[om]));
                        }
                    }
                }
            }
        } else {
            assert forall|m: int| 0 <= m < groups@.len() implies group_records(
                (#[trigger] groups@[m]).1@,
            ) == records_named(n, groups@[m].0@) by {
            }
        }
        i += 1;
    }
    assert(records@.take(i as int) =~= records@);
    groups
}

// ---------------------------------------------------------------------------------------------
// Comparing each rule with its expectation
// ---------------------------------------------------------------------------------------------

/// A list of verdicts as the report writes it: `[PASS, FAIL]`.
pub open spec fn status_list_text(statuses: Seq<Status>) -> Seq<char> {
    "["@ + join(statuses.map_values(|s: Status| status_text(s)), ", "@) + "]"@
}

/// The line for a rule that met its expectation.
pub open spec fn passed_text(rule: Seq<char>, status: Status) -> Seq<char> {
    rule + ": Expected = "@ + status_text(status)
}

/// The line for a rule that did not meet its expectation.
pub open spec fn failed_text(rule: Seq<char>, expected: Status, evaluated: Seq<Status>) -> Seq<char> {
    rule + ": Expected = "@ + status_text(expected) + ", Evaluated = "@ + status_list_text(evaluated)
}

/// The line for a rule the test case set no expectation for.
pub open spec fn unset_text(rule: Seq<char>) -> Seq<char> {
    "  No Test expectation was set for Rule "@ + rule
}

/// The expectation for the rule `name`: the first one that names it.
pub open spec fn expectation_for(expectations: Seq<(String, Status)>, name: Seq<char>) -> Option<
    Status,
>
    decreases expectations.len(),
{
    if expectations.len() == 0 {
        None
    } else if expectations[0].0@ == name {
        Some(expectations[0].1)
    } else {
        expectation_for(expectations.drop_first(), name)
    }
}

/// What a test case decided: the lines for the rules that met their expectations, for those that
/// did not, and for those that had none, each in rule order.
pub struct CaseDecision {
    pub passed: Vec<String>,
    pub failed: Vec<String>,
    pub unset: Vec<String>,
}

/// The lines [`decide_case`] gives for `groups`, as (passed, failed, unset).
pub open spec fn decided(
    groups: Seq<(String, Vec<&Option<RecordType>>)>,
    expectations: Seq<(String, Status)>,
) -> (Seq<Seq<char>>, Seq<Seq<char>>, Seq<Seq<char>>)
    decreases groups.len(),
{
    if groups.len() == 0 {
        (Seq::empty(), Seq::empty(), Seq::empty())
    } else {
        let (p, f, u) = decided(groups.drop_last(), expectations);
        let name = groups.last().0@;
        match expectation_for(expectations, name) {
            None => (p, f, u.push(unset_text(name))),
            Some(e) => match status_result(e, groups.last().1@) {
                (Some(st), _) => (p.push(passed_text(name, st)), f, u),
                (None, seen) => (p, f.push(failed_text(name, e, seen)), u),
            },
        }
    }
}

/// The expectation for the rule `name`, if one is set.
fn find_expectation(expectations: &Vec<(String, Status)>, name: &str) -> (r: Option<Status>)
    ensures
        r == expectation_for(expectations@, name@),
{
    let mut i: usize = 0;
    assert(expectations@.skip(0) =~= expectations@);
    while i < expectations.len()
        invariant
            i <= expectations@.len(),
            expectation_for(expectations@, name@) == expectation_for(expectations@.skip(i as int), name@),
        decreases expectations.len() - i,
    {
        let ghost rest = expectations@.skip(i as int);
        assert(rest[0] == expectations@[i as int]);
        if str_eq(expectations[i].0.as_str(), name) {
            return Some(expectations[i].1);
        }
        assert(rest.drop_first() =~= expectations@.skip(i + 1));
        i += 1;
    }
    None
}

/// A list of verdicts as the report writes it.
fn status_list(statuses: &Vec<Status>) -> (r: String)
    ensures
        r@ == status_list_text(statuses@),
{
    let ghost names = statuses@.map_values(|s: Status| status_text(s));
    let mut listed = String::new();
    let mut k: usize = 0;
    while k < statuses.len()
        invariant
            k <= statuses@.len(),
            names == statuses@.map_values(|s: Status| status_text(s)),
            listed@ == join(names.take(k as int), ", "@),
        decreases statuses.len() - k,
    {
        let ghost before = names.take(k as int);
        if k > 0 {
            push_str(&mut listed, ", ");
        }
        push_str(&mut listed, status_name(statuses[k]).as_str());
        let ghost after = names.take(k + 1);
        assert(after.drop_last() =~= before);
        assert(after.last() == status_text(statuses@[k as int]));
        assert(k == 0 ==> after =~= seq![status_text(statuses@[0])]);
        k += 1;
    }
    assert(names.take(k as int) =~= names);
    let mut r = string_of("[");
    push_str(&mut r, listed.as_str());
    push_str(&mut r, "]");
    r
}

/// Compares each rule of `groups` with its expectation (see [`decided`]).
pub fn decide_case(
    groups: Vec<(String, Vec<&Option<RecordType>>)>,
    expectations: &Vec<(String, Status)>,
) -> (r: CaseDecision)
    ensures
        (views(r.passed@), views(r.failed@), views(r.unset@)) == decided(groups@, expectations@),
{
    let ghost all = groups@;
    assert(all.len() == groups.len());
    let mut rest = groups;
    let mut passed: Vec<String> = Vec::new();
    let mut failed: Vec<String> = Vec::new();
    let mut unset: Vec<String> = Vec::new();
    let mut k: usize = 0;
    while rest.len() > 0
        invariant
            k <= all.len(),
            all.len() <= usize::MAX,
            rest@ == all.skip(k as int),
            (views(passed@), views(failed@), views(unset@)) == decided(all.take(k as int), expectations@),
        decreases rest.len(),
    {
        assert(k < all.len());
        let ghost next = all.take(k + 1);
        assert(next.drop_last() =~= all.take(k as int));
        let (name, records) = rest.remove(0);
        assert(next.last() == (name, records));
        assert(rest@ =~= all.skip(k + 1));
        let ghost p0 = views(passed@);
        let ghost f0 = views(failed@);
        let ghost u0 = views(unset@);
        match find_expectation(expectations, name.as_str()) {
            None => {
                let mut line = string_of("  No Test expectation was set for Rule ");
                push_str(&mut line, name.as_str());
                unset.push(line);
                assert(views(unset@) =~= u0.push(unset_text(name@)));
            },
            Some(expected) => {
                let (matched, seen) = get_status_result(expected, records);
                match matched {
                    Some(st) => {
                        let mut line = string_of(name.as_str());
                        push_str(&mut line, ": Expected = ");
                        push_str(&mut line, status_name(st).as_str());
                        passed.push(line);
                        assert(views(passed@) =~= p0.push(passed_text(name@, st)));
                    },
                    None => {
                        let mut line = string_of(name.as_str());
                        push_str(&mut line, ": Expected = ");
                        push_str(&mut line, status_name(expected).as_str());
                        push_str(&mut line, ", Evaluated = ");
                        push_str(&mut line, status_list(&seen).as_str());
                        failed.push(line);
                        assert(views(failed@) =~= f0.push(failed_text(name@, expected, seen@)));
                    },
                }
            },
        }
        k += 1;
    }
    assert(all.take(k as int) =~= all);
    CaseDecision { passed, failed, unset }
}

/// `lines` each on a line of its own, indented by `indent`.
pub open spec fn indented_lines(lines: Seq<Seq<char>>, indent: Seq<char>) -> Seq<char>
    decreases lines.len(),
{
    if lines.len() == 0 {
        Seq::empty()
    } else {
        indented_lines(lines.drop_last(), indent) + indent + lines.last() + "\n"@
    }
}

/// The text of a test case's report: the rules with no expectation as they were met; then the
/// failed expectations and the met ones, each under its heading when there are any; then a blank
/// line.
pub open spec fn case_report_text(d: (Seq<Seq<char>>, Seq<Seq<char>>, Seq<Seq<char>>)) -> Seq<char> {
    indented_lines(d.2, Seq::empty()) + (if d.1.len() > 0 {
        "  FAIL Rules:\n"@ + indented_lines(d.1, "    "@)
    } else {
        Seq::empty()
    }) + (if d.0.len() > 0 {
        "  PASS Rules:\n"@ + indented_lines(d.0, "    "@)
    } else {
        Seq::empty()
    }) + "\n"@
}

/// `lines` each on a line of its own, indented by `indent`.
fn write_lines(out: &mut String, lines: &Vec<String>, indent: &str)
    ensures
        final(out)@ == old(out)@ + indented_lines(views(lines@), indent@),
{
    let ghost start = out@;
    let mut k: usize = 0;
    while k < lines.len()
        invariant
            k <= lines@.len(),
            out@ == start + indented_lines(views(lines@).take(k as int), indent@),
        decreases lines.len() - k,
    {
        let ghost before = out@;
        push_str(out, indent);
        push_str(out, lines[k].as_str());
        push_str(out, "\n");
        assert(views(lines@).take(k + 1).drop_last() =~= views(lines@).take(k as int));
        assert(views(lines@).take(k + 1).last() == lines@[k as int]@);
        k += 1;
    }
    assert(views(lines@).take(k as int) =~= views(lines@));
}

/// The text of a test case's report (see [`case_report_text`]).
pub fn case_report(d: &CaseDecision) -> (r: String)
    ensures
        r@ == case_report_text((views(d.passed@), views(d.failed@), views(d.unset@))),
{
    let mut r = String::new();
    write_lines(&mut r, &d.unset, "");
    assert(""@ =~= Seq::<char>::empty()) by {
        reveal_strlit("");
    }
    let ghost after_unset = r@;
    if d.failed.len() > 0 {
        push_str(&mut r, "  FAIL Rules:\n");
        write_lines(&mut r, &d.failed, "    ");
    }
    let ghost after_failed = r@;
    if d.passed.len() > 0 {
        push_str(&mut r, "  PASS Rules:\n");
        write_lines(&mut r, &d.passed, "    ");
    }
    push_str(&mut r, "\n");
    r
}

/// Every rule with a verdict is reported exactly once: as met, as missed, or as having no
/// expectation.
pub proof fn law_each_rule_is_reported_once(
    groups: Seq<(String, Vec<&Option<RecordType>>)>,
    expectations: Seq<(String, Status)>,
)
    ensures
        decided(groups, expectations).0.len() + decided(groups, expectations).1.len() + decided(
            groups,
            expectations,
        ).2.len() == groups.len(),
    decreases groups.len(),
{
    if groups.len() > 0 {
        law_each_rule_is_reported_once(groups.drop_last(), expectations);
    }
}


// ---------------------------------------------------------------------------------------------
// The structured report of one test case
// ---------------------------------------------------------------------------------------------

/// What the structured report of a test case says of its rules: those that met their
/// expectations with the verdict, those that did not with the expectation and the verdicts seen,
/// and those with no expectation, each in rule order.
pub type RuleVerdicts = (Seq<(Seq<char>, Status)>, Seq<(Seq<char>, Status, Seq<Status>)>, Seq<Seq<char>>);

/// The expectation for the rule `name` as it was read: the first one that names it, which is a
/// verdict or the reason its text is not one.
pub open spec fn read_expectation_for(
    expectations: Seq<(String, Result<Status, String>)>,
    name: Seq<char>,
) -> Option<Result<Status, String>>
    decreases expectations.len(),
{
    if expectations.len() == 0 {
        None
    } else if expectations[0].0@ == name {
        Some(expectations[0].1)
    } else {
        read_expectation_for(expectations.drop_first(), name)
    }
}

/// What the structured report says of the rules of `groups` against `expectations`; when the
/// expectation of a rule is not a verdict, the reason given for the earliest such rule instead,
/// and the case stops there.
pub open spec fn structured_verdicts(
    groups: Seq<(String, Vec<&Option<RecordType>>)>,
    expectations: Seq<(String, Result<Status, String>)>,
) -> Result<RuleVerdicts, Seq<char>>
    decreases groups.len(),
{
    if groups.len() == 0 {
        Ok((Seq::empty(), Seq::empty(), Seq::empty()))
    } else {
        match structured_verdicts(groups.drop_last(), expectations) {
            Err(reason) => Err(reason),
            Ok((p, f, s)) => {
                let name = groups.last().0@;
                match read_expectation_for(expectations, name) {
                    None => Ok((p, f, s.push(name))),
                    Some(Err(reason)) => Err(reason@),
                    Some(Ok(e)) => match status_result(e, groups.last().1@) {
                        (Some(st), _) => Ok((p.push((name, st)), f, s)),
                        (None, seen) => Ok((p, f.push((name, e, seen)), s)),
                    },
                }
            },
        }
    }
}

/// The expectation for the rule `name`, as it was read, if one is set.
fn find_read_expectation(
    expectations: &Vec<(String, Result<Status, String>)>,
    name: &str,
) -> (r: Option<usize>)
    ensures
        match r {
            Some(k) => k < expectations@.len() && read_expectation_for(expectations@, name@) == Some(
                expectations@[k as int].1,
            ),
            None => read_expectation_for(expectations@, name@) is None,
        },
{
    let mut i: usize = 0;
    assert(expectations@.skip(0) =~= expectations@);
    while i < expectations.len()
        invariant
            i <= expectations@.len(),
            read_expectation_for(expectations@, name@) == read_expectation_for(
                expectations@.skip(i as int),
                name@,
            ),
        decreases expectations.len() - i,
    {
        let ghost rest = expectations@.skip(i as int);
        assert(rest[0] == expectations@[i as int]);
        if str_eq(expectations[i].0.as_str(), name) {
            return Some(i);
        }
        assert(rest.drop_first() =~= expectations@.skip(i + 1));
        i += 1;
    }
    None
}

/// The rules that met their expectations, as a report lists them.
pub open spec fn passed_views(rules: Seq<PassedRule>) -> Seq<(Seq<char>, Status)> {
    rules.map_values(|x: PassedRule| (x.name@, x.evaluated))
}

/// The rules that did not meet their expectations, as a report lists them.
pub open spec fn failed_views(rules: Seq<FailedRule>) -> Seq<(Seq<char>, Status, Seq<Status>)> {
    rules.map_values(|x: FailedRule| (x.name@, x.expected, x.evaluated@))
}

/// The rules with no expectation, as a report lists them.
pub open spec fn skipped_views(rules: Seq<SkippedRule>) -> Seq<Seq<char>> {
    rules.map_values(|x: SkippedRule| x.name@)
}

/// The structured report of the test case `name`: each rule of `groups` compared with its
/// expectation, with the evaluation's error and the expectations no rule answered. When a rule's
/// expectation is not a verdict the case carries that reason and nothing else.
pub fn structured_case(
    name: String,
    error: Option<String>,
    groups: Vec<(String, Vec<&Option<RecordType>>)>,
    expectations: &Vec<(String, Result<Status, String>)>,
    unchecked: Vec<UncheckedExpectation>,
    time: u128,
) -> (r: TestCase)
    ensures
        r.name == name,
        r.time == time,
        match structured_verdicts(groups@, expectations@) {
            Err(reason) => r.error matches Some(e) && e@ == reason && r.passed_rules@.len() == 0
                && r.failed_rules@.len() == 0 && r.skipped_rules@.len() == 0
                && r.unchecked_expectations@.len() == 0,
            Ok((p, f, s)) => {
                &&& r.error == error
                &&& passed_views(r.passed_rules@) == p
                &&& failed_views(r.failed_rules@) == f
                &&& skipped_views(r.skipped_rules@) == s
                &&& r.unchecked_expectations == unchecked
            },
        },
{
    let ghost all = groups@;
    assert(all.len() == groups.len());
    let mut rest = groups;
    let mut passed: Vec<PassedRule> = Vec::new();
    let mut failed: Vec<FailedRule> = Vec::new();
    let mut skipped: Vec<SkippedRule> = Vec::new();
    let mut k: usize = 0;
    assert(all.take(0) =~= Seq::<(String, Vec<&Option<RecordType>>)>::empty());
    assert(passed_views(passed@) =~= Seq::empty());
    assert(failed_views(failed@) =~= Seq::empty());
    assert(skipped_views(skipped@) =~= Seq::empty());
    while rest.len() > 0
        invariant
            all == groups@,
            k <= all.len(),
            all.len() <= usize::MAX,
            rest@ == all.skip(k as int),
            structured_verdicts(all.take(k as int), expectations@) == Ok::<RuleVerdicts, Seq<char>>(
                (passed_views(passed@), failed_views(failed@), skipped_views(skipped@)),
            ),
        decreases rest.len(),
    {
        assert(k < all.len());
        let ghost next = all.take(k + 1);
        assert(next.drop_last() =~= all.take(k as int));
        let (rule, records) = rest.remove(0);
        assert(next.last() == (rule, records));
        assert(rest@ =~= all.skip(k + 1));
        let ghost p0 = passed_views(passed@);
        let ghost f0 = failed_views(failed@);
        let ghost s0 = skipped_views(skipped@);
        match find_read_expectation(expectations, rule.as_str()) {
            None => {
                skipped.push(SkippedRule { name: rule });
                assert(skipped_views(skipped@) =~= s0.push(rule@));
            },
            Some(j) => {
                match &expectations[j].1 {
                    Err(reason) => {
                        assert(structured_verdicts(next, expectations@) == Err::<RuleVerdicts, Seq<char>>(reason@));
                        proof {
                            lemma_structured_verdicts_error_persists(all, expectations@, k + 1);
                        }
                        return TestCase::errored(name, reason.clone(), time);
                    },
                    Ok(expected) => {
                        match evaluate_result(records, *expected, rule.as_str()) {
                            RecordResult::Pass(pr) => {
                                let ghost st = pr.evaluated;
                                passed.push(pr);
                                assert(passed_views(passed@) =~= p0.push((rule@, st)));
                            },
                            RecordResult::Fail(fr) => {
                                let ghost seen = fr.evaluated@;
                                failed.push(fr);
                                assert(failed_views(failed@) =~= f0.push((rule@, *expected, seen)));
                            },
                        }
                    },
                }
            },
        }
        k += 1;
    }
    assert(all.take(k as int) =~= all);
    TestCase {
        name,
        error,
        passed_rules: passed,
        failed_rules: failed,
        skipped_rules: skipped,
        unchecked_expectations: unchecked,
        time,
    }
}

/// Once the rules so far end the case, so do all of them.
proof fn lemma_structured_verdicts_error_persists(
    groups: Seq<(String, Vec<&Option<RecordType>>)>,
    expectations: Seq<(String, Result<Status, String>)>,
    n: int,
)
    requires
        0 <= n <= groups.len(),
        structured_verdicts(groups.take(n), expectations) is Err,
    ensures
        structured_verdicts(groups, expectations) == structured_verdicts(groups.take(n), expectations),
    decreases groups.len() - n,
{
    if n == groups.len() {
        assert(groups.take(n) =~= groups);
    } else {
        assert(groups.take(n + 1).drop_last() =~= groups.take(n));
        lemma_structured_verdicts_error_persists(groups, expectations, n + 1);
    }
}

} // verus!
