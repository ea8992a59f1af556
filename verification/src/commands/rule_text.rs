//! The text of a generated rules file: one clause per property, a comment where there is none,
//! and the warnings that say what was left out.
use vstd::prelude::*;

use crate::commands::rule_map::{
    Omission, OmissionView, PropertyRule, PropertyRuleView, RuleMap, omission_views,
    rule_views,
};
use crate::commands::{ERROR_STATUS_CODE, SUCCESS_STATUS_CODE};
use crate::sorted::{
    insert_sorted, lemma_strictly_sorted_unique, strictly_sorted, lemma_pair_lt_order, lemma_sorted_permutation_unique, pair_less, pair_lt, strict_total_order,
};
use crate::text::{
    lemma_seq_lt_irreflexive, lemma_seq_lt_total, lemma_seq_lt_transitive, seq_lt, str_eq, str_lt,
    chars_of, has_control, is_ascii_alphabetic, join, join_strings, push_str,
    quote_guard_string, quoted, spec_is_ascii_alphabetic, string_of, views, colons_to_underscores,
    lowercased, replace_colons, to_lowercase,
};

verus! {

// ---------------------------------------------------------------------------------------------
// Property names
// ---------------------------------------------------------------------------------------------

/// What `char::is_alphanumeric` answers for `c`: the Unicode Alphabetic and Numeric properties
/// decide it.
pub uninterp spec fn alphanumeric(c: char) -> bool;

/// Whether `c` is alphabetic or numeric, by `char::is_alphanumeric`. The answer is named, not
/// stated: it comes from the Unicode property tables the standard library carries.
#[verifier::external_body]
fn is_alphanumeric(c: char) -> (r: bool)
    ensures
        r == alphanumeric(c),
{
    c.is_alphanumeric()
}

/// `name` can stand bare after the `.` in a query: an ASCII letter, then letters, digits and
/// underscores.
pub open spec fn bare_property_name(name: Seq<char>) -> bool {
    &&& name.len() > 0
    &&& spec_is_ascii_alphabetic(name[0])
    &&& forall|i: int| 1 <= i < name.len() ==> alphanumeric(#[trigger] name[i]) || name[i] == '_'
}

/// Whether `name` can be written bare after the `.` in a query.
pub fn is_bare_property_name(name: &str) -> (r: bool)
    ensures
        r == bare_property_name(name@),
{
    let cs = chars_of(name);
    if cs.len() == 0 || !is_ascii_alphabetic(cs[0]) {
        return false;
    }
    let mut i: usize = 1;
    while i < cs.len()
        invariant
            cs@ == name@,
            1 <= i <= cs.len(),
            forall|k: int| 1 <= k < i ==> alphanumeric(#[trigger] cs@[k]) || cs@[k] == '_',
        decreases cs.len() - i,
    {
        if !(is_alphanumeric(cs[i]) || cs[i] == '_') {
            return false;
        }
        i += 1;
    }
    true
}

/// `name` as it stands after the `.` in a query: bare where it can be, quoted where it cannot,
/// and nothing where no guard literal carries it.
pub open spec fn path_segment(name: Seq<char>) -> Option<Seq<char>> {
    if bare_property_name(name) {
        Some(name)
    } else if has_control(name) {
        None
    } else {
        Some(quoted(name))
    }
}

/// `name` as it stands after the `.` in a query, or `None` when no guard literal carries it.
pub fn property_path_segment(name: &str) -> (r: Option<String>)
    ensures
        match r {
            Some(s) => path_segment(name@) == Some(s@),
            None => path_segment(name@) is None,
        },
{
    if is_bare_property_name(name) {
        return Some(string_of(name));
    }
    quote_guard_string(name)
}

// ---------------------------------------------------------------------------------------------
// Clauses
// ---------------------------------------------------------------------------------------------

/// Why a property no literal can name gets no clause.
pub open spec fn unquotable_name_reason() -> Seq<char> {
    "the property name holds a line ending or another control character, and a guard string literal ends at the end of its line"@
}

/// Why a property with no recorded value gets no clause.
pub open spec fn no_value_reason() -> Seq<char> {
    "no value for it was recorded"@
}

/// Why a boolean observed both ways gets no clause.
pub open spec fn both_booleans_reason() -> Seq<char> {
    "the template holds both true and false for it, and `IN [false, true]` is a clause no boolean value can fail"@
}

/// The clause for one property with the sorted `values`, or the reason there is none.
///
/// One value is an `==` clause, several an `IN` clause over all of them. `IN [false, true]` is
/// refused: no boolean value fails it.
pub open spec fn clause_text(variable: Seq<char>, segment: Seq<char>, values: Seq<Seq<char>>) -> Result<
    Seq<char>,
    Seq<char>,
> {
    let head = "  %"@ + variable + ".Properties."@ + segment;
    if values.len() == 0 {
        Err(no_value_reason())
    } else if values.len() == 1 {
        Ok(head + " == "@ + values[0] + "\n"@)
    } else if values.len() == 2 && values[0] == "false"@ && values[1] == "true"@ {
        Err(both_booleans_reason())
    } else {
        Ok(head + " IN ["@ + join(values, ", "@) + "]\n"@)
    }
}

/// The values `vs` as a set, in sorted order with each once.
pub open spec fn sorted_values(vs: Seq<Seq<char>>) -> Seq<Seq<char>> {
    choose|s: Seq<Seq<char>>| strictly_sorted(s) && s.to_set() == vs.to_set()
}

/// Where `s` is strictly sorted, its sorted values are itself.
pub proof fn lemma_sorted_values_of_sorted(s: Seq<Seq<char>>)
    requires
        strictly_sorted(s),
    ensures
        sorted_values(s) == s,
{
    let c = sorted_values(s);
    assert(strictly_sorted(c) && c.to_set() == s.to_set());
    lemma_strictly_sorted_unique(c, s);
}

/// The clause for one property, or the reason there is none, over its values taken as a set:
/// sorted, each once (see [`clause_text`]).
pub fn emit_clause(variable_name: &str, path_segment: &str, values: &Vec<String>) -> (r: Result<
    String,
    String,
>)
    ensures
        match r {
            Ok(s) => clause_text(variable_name@, path_segment@, sorted_values(views(values@)))
                == Ok::<Seq<char>, Seq<char>>(s@),
            Err(e) => clause_text(variable_name@, path_segment@, sorted_values(views(values@)))
                == Err::<Seq<char>, Seq<char>>(e@),
        },
{
    let mut sorted: Vec<String> = Vec::new();
    let mut i: usize = 0;
    assert(views(sorted@).to_set() =~= views(values@.take(0)).to_set());
    while i < values.len()
        invariant
            i <= values@.len(),
            strictly_sorted(views(sorted@)),
            views(sorted@).to_set() == views(values@.take(i as int)).to_set(),
        decreases values.len() - i,
    {
        let ghost before = views(values@.take(i as int));
        insert_sorted(&mut sorted, values[i].clone());
        assert(views(values@.take(i + 1)) =~= before.push(values@[i as int]@));
        assert(views(values@.take(i + 1)).to_set() =~= before.to_set().insert(values@[i as int]@)) by {
            assert forall|x: Seq<char>| #[trigger] views(values@.take(i + 1)).to_set().contains(x)
                <==> before.to_set().insert(values@[i as int]@).contains(x) by {
                if before.push(values@[i as int]@).contains(x) && x != values@[i as int]@ {
                    let k = choose|k: int| 0 <= k < before.push(values@[i as int]@).len()
                        && before.push(values@[i as int]@)[k] == x;
                    assert(before[k] == x);
                }
                if before.contains(x) {
                    let k = choose|k: int| 0 <= k < before.len() && before[k] == x;
                    assert(before.push(values@[i as int]@)[k] == x);
                }
                if x == values@[i as int]@ {
                    assert(before.push(values@[i as int]@)[before.len() as int] == x);
                }
            }
        }
        i += 1;
    }
    assert(values@.take(i as int) =~= values@);
    proof {
        let c = sorted_values(views(values@));
        assert(strictly_sorted(views(sorted@)) && views(sorted@).to_set() == views(values@).to_set());
        assert(strictly_sorted(c) && c.to_set() == views(values@).to_set());
        lemma_strictly_sorted_unique(c, views(sorted@));
    }
    let ghost vs = views(sorted@);
    if sorted.len() == 0 {
        return Err(string_of("no value for it was recorded"));
    }
    let mut head = string_of("  %");
    push_str(&mut head, variable_name);
    push_str(&mut head, ".Properties.");
    push_str(&mut head, path_segment);
    if sorted.len() == 1 {
        push_str(&mut head, " == ");
        push_str(&mut head, sorted[0].as_str());
        push_str(&mut head, "\n");
        assert(vs[0] == sorted@[0]@);
        return Ok(head);
    }
    let false_text = string_of("false");
    let true_text = string_of("true");
    if sorted.len() == 2 && sorted[0] == false_text && sorted[1] == true_text {
        assert(vs[0] == sorted@[0]@ && vs[1] == sorted@[1]@);
        return Err(string_of(
            "the template holds both true and false for it, and `IN [false, true]` is a clause no boolean value can fail",
        ));
    }
    assert(sorted.len() == 2 ==> vs[0] == sorted@[0]@ && vs[1] == sorted@[1]@);
    push_str(&mut head, " IN [");
    let listed = join_strings(&sorted, ", ");
    push_str(&mut head, listed.as_str());
    push_str(&mut head, "]\n");
    Ok(head)
}

// ---------------------------------------------------------------------------------------------
// Omissions as text
// ---------------------------------------------------------------------------------------------

/// What an omission left out: `resource <name>`, or `<type>.Properties.<name>`.
pub open spec fn subject_text(o: OmissionView) -> Seq<char> {
    match o {
        OmissionView::Resource { name, .. } => "resource "@ + name,
        OmissionView::Property { resource_type, name, .. } => resource_type + ".Properties."@
            + name,
    }
}

/// Why an omission was left out.
pub open spec fn reason_text(o: OmissionView) -> Seq<char> {
    match o {
        OmissionView::Resource { reason, .. } => reason,
        OmissionView::Property { reason, .. } => reason,
    }
}

/// The comment that stands in a rule where an omitted clause would have been.
pub open spec fn comment_text(o: OmissionView) -> Seq<char> {
    "  # no check generated for "@ + subject_text(o) + ": "@ + reason_text(o) + "\n"@
}

/// The warning written for an omission.
pub open spec fn warning_text(o: OmissionView) -> Seq<char> {
    "Warning: no check generated for "@ + subject_text(o) + ": "@ + reason_text(o)
}

impl Omission {
    /// An omission that says what this one says.
    pub fn copied(&self) -> (r: Omission)
        ensures
            r@ == self@,
    {
        match self {
            Omission::Resource { name, reason } => Omission::Resource {
                name: name.clone(),
                reason: reason.clone(),
            },
            Omission::Property { resource_type, name, reason } => Omission::Property {
                resource_type: resource_type.clone(),
                name: name.clone(),
                reason: reason.clone(),
            },
        }
    }

    /// A property of `resource_type` that gets no clause, and why.
    pub fn property(resource_type: &str, name: &str, reason: &str) -> (r: Omission)
        ensures
            r@ == (OmissionView::Property {
                resource_type: resource_type@,
                name: name@,
                reason: reason@,
            }),
    {
        Omission::Property {
            resource_type: string_of(resource_type),
            name: string_of(name),
            reason: string_of(reason),
        }
    }

    /// What was left out.
    pub fn subject(&self) -> (r: String)
        ensures
            r@ == subject_text(self@),
    {
        match self {
            Omission::Resource { name, .. } => {
                let mut r = string_of("resource ");
                push_str(&mut r, name.as_str());
                r
            },
            Omission::Property { resource_type, name, .. } => {
                let mut r = string_of(resource_type.as_str());
                push_str(&mut r, ".Properties.");
                push_str(&mut r, name.as_str());
                r
            },
        }
    }

    /// Why it was left out.
    pub fn reason(&self) -> (r: &str)
        ensures
            r@ == reason_text(self@),
    {
        match self {
            Omission::Resource { reason, .. } => reason.as_str(),
            Omission::Property { reason, .. } => reason.as_str(),
        }
    }

    /// The same sentence as a comment, indented to sit where the clause would have been.
    pub fn comment(&self) -> (r: String)
        ensures
            r@ == comment_text(self@),
    {
        let mut r = string_of("  # no check generated for ");
        let subject = self.subject();
        push_str(&mut r, subject.as_str());
        push_str(&mut r, ": ");
        push_str(&mut r, self.reason());
        push_str(&mut r, "\n");
        r
    }

    /// The warning line for this omission.
    pub fn warning(&self) -> (r: String)
        ensures
            r@ == warning_text(self@),
    {
        let mut r = string_of("Warning: no check generated for ");
        let subject = self.subject();
        push_str(&mut r, subject.as_str());
        push_str(&mut r, ": ");
        push_str(&mut r, self.reason());
        r
    }
}

// ---------------------------------------------------------------------------------------------
// The lines of a rule, in property-name order
// ---------------------------------------------------------------------------------------------

/// The views of a list of (name, line) entries.
pub open spec fn entry_views(s: Seq<(String, String)>) -> Seq<(Seq<char>, Seq<char>)> {
    s.map_values(|e: (String, String)| (e.0@, e.1@))
}

/// How many of the leading entries of `s` have a name before `k`: where `k` goes in `s`.
pub open spec fn position(s: Seq<(Seq<char>, Seq<char>)>, k: Seq<char>) -> nat
    decreases s.len(),
{
    if s.len() == 0 {
        0
    } else if seq_lt(s[0].0, k) {
        1 + position(s.drop_first(), k)
    } else {
        0
    }
}

/// `s` with the line for `k` set to `v`: replaced where `s` has one, inserted in name order where
/// it has none.
pub open spec fn upsert(s: Seq<(Seq<char>, Seq<char>)>, k: Seq<char>, v: Seq<char>) -> Seq<
    (Seq<char>, Seq<char>),
> {
    let i = position(s, k) as int;
    if i < s.len() && s[i].0 == k {
        s.update(i, (k, v))
    } else {
        s.insert(i, (k, v))
    }
}

pub proof fn lemma_position_bound(s: Seq<(Seq<char>, Seq<char>)>, k: Seq<char>)
    ensures
        position(s, k) <= s.len(),
    decreases s.len(),
{
    if s.len() > 0 {
        lemma_position_bound(s.drop_first(), k);
    }
}

/// Sets the line for `key` to `line`, keeping the entries in name order.
fn upsert_line(entries: &mut Vec<(String, String)>, key: &str, line: String)
    ensures
        entry_views(final(entries)@) == upsert(entry_views(old(entries)@), key@, line@),
{
    let ghost s = entry_views(entries@);
    let mut i: usize = 0;
    assert(s.skip(0) =~= s);
    while i < entries.len()
        invariant
            i <= entries.len(),
            s == entry_views(entries@),
            position(s, key@) == i + position(s.skip(i as int), key@),
        ensures
            i <= entries.len(),
            s == entry_views(entries@),
            position(s, key@) == i + position(s.skip(i as int), key@),
            i < entries.len() ==> !seq_lt(s[i as int].0, key@),
        decreases entries.len() - i,
    {
        let ghost rest = s.skip(i as int);
        assert(rest[0] == s[i as int]);
        if !str_lt(entries[i].0.as_str(), key) {
            break;
        }
        assert(rest.drop_first() =~= s.skip(i + 1));
        i += 1;
    }
    proof {
        lemma_position_bound(s, key@);
        if i < entries.len() {
            assert(s.skip(i as int)[0] == s[i as int]);
        }
        assert(position(s, key@) == i);
    }
    if i < entries.len() && str_eq(entries[i].0.as_str(), key) {
        let name = string_of(key);
        entries.set(i, (name, line));
        assert(entry_views(entries@) =~= s.update(i as int, (key@, line@)));
    } else {
        let name = string_of(key);
        let ghost e = (name, line);
        entries.insert(i, (name, line));
        assert(entry_views(entries@) =~= s.insert(i as int, (key@, line@)));
    }
}

/// The entries' lines run together.
pub open spec fn lines_text(s: Seq<(Seq<char>, Seq<char>)>) -> Seq<char>
    decreases s.len(),
{
    if s.len() == 0 {
        Seq::empty()
    } else {
        lines_text(s.drop_last()) + s.last().1
    }
}

// ---------------------------------------------------------------------------------------------
// Rules
// ---------------------------------------------------------------------------------------------

/// The rule name for a resource type: lower case, with `::` written `_`.
pub open spec fn rule_name_text(t: Seq<char>) -> Seq<char> {
    lowercased(colons_to_underscores(t))
}

/// The variable that holds the resources of a type.
pub open spec fn variable_text(t: Seq<char>) -> Seq<char> {
    rule_name_text(t) + "_resources"@
}

/// The first two lines of the rule for a resource type.
pub open spec fn header_text(t: Seq<char>) -> Seq<char> {
    "let "@ + variable_text(t) + " = Resources.*[ Type == '"@ + t + "' ]\n"@ + "rule "@
        + rule_name_text(t) + " when %"@ + variable_text(t) + " !empty {\n"@
}

/// The clause for the property of `r`, a property of type `t`, or the reason there is none.
pub open spec fn property_clause(t: Seq<char>, r: PropertyRuleView) -> Result<Seq<char>, Seq<char>> {
    match path_segment(r.name) {
        Some(segment) => clause_text(variable_text(t), segment, sorted_values(r.values)),
        None => Err(unquotable_name_reason()),
    }
}

/// The line the property of `r` gets in its rule: its clause, or the comment saying why there is
/// none.
pub open spec fn property_line(t: Seq<char>, r: PropertyRuleView) -> Seq<char> {
    match property_clause(t, r) {
        Ok(c) => c,
        Err(reason) => comment_text(
            OmissionView::Property { resource_type: t, name: r.name, reason },
        ),
    }
}

/// The comments for the omitted properties of type `t`, in name order; a later omission of the
/// same name replaces an earlier one.
pub open spec fn comment_entries(os: Seq<OmissionView>, t: Seq<char>) -> Seq<
    (Seq<char>, Seq<char>),
>
    decreases os.len(),
{
    if os.len() == 0 {
        Seq::empty()
    } else {
        let acc = comment_entries(os.drop_last(), t);
        let o = os.last();
        match o {
            OmissionView::Property { resource_type, name, .. } => if resource_type == t {
                upsert(acc, name, comment_text(o))
            } else {
                acc
            },
            _ => acc,
        }
    }
}

/// The lines of the rule for type `t`: `base`, then the line of each property of `group` in
/// turn, each in name order.
pub open spec fn group_entries(
    t: Seq<char>,
    group: Seq<PropertyRuleView>,
    base: Seq<(Seq<char>, Seq<char>)>,
) -> Seq<(Seq<char>, Seq<char>)>
    decreases group.len(),
{
    if group.len() == 0 {
        base
    } else {
        upsert(
            group_entries(t, group.drop_last(), base),
            group.last().name,
            property_line(t, group.last()),
        )
    }
}

/// How many properties of `group` get a clause.
pub open spec fn group_clauses(t: Seq<char>, group: Seq<PropertyRuleView>) -> nat
    decreases group.len(),
{
    if group.len() == 0 {
        0
    } else {
        group_clauses(t, group.drop_last()) + if property_clause(t, group.last()) is Ok {
            1nat
        } else {
            0nat
        }
    }
}

/// The properties of `group` that get no clause, in order.
pub open spec fn group_refused(t: Seq<char>, group: Seq<PropertyRuleView>) -> Seq<OmissionView>
    decreases group.len(),
{
    if group.len() == 0 {
        Seq::empty()
    } else {
        group_refused(t, group.drop_last()) + match property_clause(t, group.last()) {
            Ok(_) => Seq::empty(),
            Err(reason) => seq![
                OmissionView::Property {
                    resource_type: t,
                    name: group.last().name,
                    reason,
                },
            ],
        }
    }
}

/// The rule for type `t`, or nothing when none of its properties gets a clause: a rule with no
/// clause would pass every document.
pub open spec fn block_text(t: Seq<char>, group: Seq<PropertyRuleView>, os: Seq<OmissionView>) -> Seq<
    char,
> {
    if group_clauses(t, group) == 0 {
        Seq::empty()
    } else {
        header_text(t) + lines_text(group_entries(t, group, comment_entries(os, t))) + "}\n"@
    }
}

/// How many of the leading properties of `rules` are of type `t`.
pub open spec fn run_length(rules: Seq<PropertyRuleView>, t: Seq<char>) -> nat
    decreases rules.len(),
{
    if rules.len() == 0 {
        0
    } else if rules[0].resource_type == t {
        1 + run_length(rules.drop_first(), t)
    } else {
        0
    }
}

pub proof fn lemma_run_length_bound(rules: Seq<PropertyRuleView>, t: Seq<char>)
    ensures
        run_length(rules, t) <= rules.len(),
        rules.len() > 0 && rules[0].resource_type == t ==> run_length(rules, t) >= 1,
    decreases rules.len(),
{
    if rules.len() > 0 {
        lemma_run_length_bound(rules.drop_first(), t);
    }
}

/// The leading properties of `rules` that share the first one's type.
pub open spec fn first_group(rules: Seq<PropertyRuleView>) -> Seq<PropertyRuleView> {
    rules.take(run_length(rules, rules[0].resource_type) as int)
}

/// The properties after the first group.
pub open spec fn after_first_group(rules: Seq<PropertyRuleView>) -> Seq<PropertyRuleView> {
    rules.skip(run_length(rules, rules[0].resource_type) as int)
}

/// The rules for the runs of properties of one type in `rules`, one after another.
pub open spec fn rules_text(rules: Seq<PropertyRuleView>, os: Seq<OmissionView>) -> Seq<char>
    decreases rules.len(),
{
    if rules.len() == 0 {
        Seq::empty()
    } else {
        proof {
            lemma_run_length_bound(rules, rules[0].resource_type);
        }
        block_text(rules[0].resource_type, first_group(rules), os) + rules_text(
            after_first_group(rules),
            os,
        )
    }
}

/// How many rules `rules_text` writes.
pub open spec fn rules_written(rules: Seq<PropertyRuleView>) -> nat
    decreases rules.len(),
{
    if rules.len() == 0 {
        0
    } else {
        proof {
            lemma_run_length_bound(rules, rules[0].resource_type);
        }
        (if group_clauses(rules[0].resource_type, first_group(rules)) > 0 {
            1nat
        } else {
            0nat
        }) + rules_written(after_first_group(rules))
    }
}

/// The properties of `rules` that get no clause, in order.
pub open spec fn rules_refused(rules: Seq<PropertyRuleView>) -> Seq<OmissionView>
    decreases rules.len(),
{
    if rules.len() == 0 {
        Seq::empty()
    } else {
        proof {
            lemma_run_length_bound(rules, rules[0].resource_type);
        }
        group_refused(rules[0].resource_type, first_group(rules)) + rules_refused(
            after_first_group(rules),
        )
    }
}

/// The rule name and the variable name for resource type `t`.
fn rule_names(t: &str) -> (r: (String, String))
    ensures
        r.0@ == rule_name_text(t@),
        r.1@ == variable_text(t@),
{
    let replaced = replace_colons(t);
    let name = to_lowercase(replaced.as_str());
    let mut variable = string_of(name.as_str());
    push_str(&mut variable, "_resources");
    (name, variable)
}

/// The entries' lines run together.
fn join_lines(entries: &Vec<(String, String)>) -> (r: String)
    ensures
        r@ == lines_text(entry_views(entries@)),
{
    let mut r = String::new();
    let mut k: usize = 0;
    while k < entries.len()
        invariant
            k <= entries.len(),
            r@ == lines_text(entry_views(entries@.take(k as int))),
        decreases entries.len() - k,
    {
        push_str(&mut r, entries[k].1.as_str());
        assert(entry_views(entries@.take(k + 1)).drop_last() =~= entry_views(
            entries@.take(k as int),
        ));
        k += 1;
    }
    assert(entries@.take(k as int) =~= entries@);
    r
}

/// The rule for the properties `rules[i..j]`, all of type `t`; how many clauses it has; and the
/// properties of the run that get no clause.
fn build_block(
    t: &String,
    rules: &Vec<PropertyRule>,
    i: usize,
    j: usize,
    omissions: &Vec<Omission>,
) -> (out: (String, usize, Vec<Omission>))
    requires
        i < j <= rules@.len(),
    ensures
        out.0@ == block_text(
            t@,
            rule_views(rules@).subrange(i as int, j as int),
            omission_views(omissions@),
        ),
        out.1 == group_clauses(t@, rule_views(rules@).subrange(i as int, j as int)),
        omission_views(out.2@) == group_refused(t@, rule_views(rules@).subrange(i as int, j as int)),
{
    let ghost os = omission_views(omissions@);
    let (name, variable) = rule_names(t.as_str());
    let mut entries: Vec<(String, String)> = Vec::new();
    let mut k: usize = 0;
    assert(entry_views(entries@) =~= Seq::<(Seq<char>, Seq<char>)>::empty());
    while k < omissions.len()
        invariant
            k <= omissions.len(),
            os == omission_views(omissions@),
            entry_views(entries@) == comment_entries(os.take(k as int), t@),
        decreases omissions.len() - k,
    {
        assert(os.take(k + 1).drop_last() =~= os.take(k as int));
        assert(os.take(k + 1).last() == omissions@[k as int]@);
        if let Omission::Property { resource_type, name: property, .. } = &omissions[k] {
            if *resource_type == *t {
                let comment = omissions[k].comment();
                upsert_line(&mut entries, property.as_str(), comment);
            }
        }
        k += 1;
    }
    assert(os.take(k as int) =~= os);
    let ghost base = entry_views(entries@);
    let mut clauses: usize = 0;
    let mut refused: Vec<Omission> = Vec::new();
    let mut m: usize = i;
    let ghost rv = rule_views(rules@);
    assert(rv.subrange(i as int, i as int) =~= Seq::<PropertyRuleView>::empty());
    assert(omission_views(refused@) =~= Seq::<OmissionView>::empty());
    while m < j
        invariant
            i <= m <= j,
            j <= rules@.len(),
            base == comment_entries(os, t@),
            name@ == rule_name_text(t@),
            variable@ == variable_text(t@),
            rv == rule_views(rules@),
            entry_views(entries@) == group_entries(t@, rv.subrange(i as int, m as int), base),
            clauses == group_clauses(t@, rv.subrange(i as int, m as int)),
            clauses <= m - i,
            omission_views(refused@) == group_refused(t@, rv.subrange(i as int, m as int)),
        decreases j - m,
    {
        let ghost g = rv.subrange(i as int, m + 1);
        assert(g.drop_last() =~= rv.subrange(i as int, m as int));
        assert(g.last() == rules@[m as int]@);
        let r = &rules[m];
        let clause = match property_path_segment(r.name.as_str()) {
            Some(segment) => emit_clause(variable.as_str(), segment.as_str(), &r.values),
            None => Err(
                string_of(
                    "the property name holds a line ending or another control character, and a guard string literal ends at the end of its line",
                ),
            ),
        };
        assert(result_view(clause) == property_clause(t@, rules@[m as int]@));
        match clause {
            Ok(c) => {
                upsert_line(&mut entries, r.name.as_str(), c);
                clauses += 1;
                assert(omission_views(refused@) =~= group_refused(t@, g));
            },
            Err(reason) => {
                let o = Omission::property(t.as_str(), r.name.as_str(), reason.as_str());
                let comment = o.comment();
                upsert_line(&mut entries, r.name.as_str(), comment);
                let ghost before = omission_views(refused@);
                refused.push(o);
                assert(omission_views(refused@) =~= before.push(o@));
                assert(omission_views(refused@) =~= group_refused(t@, g));
            },
        }
        m += 1;
    }
    if clauses == 0 {
        return (String::new(), 0, refused);
    }
    let mut block = string_of("let ");
    push_str(&mut block, variable.as_str());
    push_str(&mut block, " = Resources.*[ Type == '");
    push_str(&mut block, t.as_str());
    push_str(&mut block, "' ]\n");
    push_str(&mut block, "rule ");
    push_str(&mut block, name.as_str());
    push_str(&mut block, " when %");
    push_str(&mut block, variable.as_str());
    push_str(&mut block, " !empty {\n");
    let lines = join_lines(&entries);
    push_str(&mut block, lines.as_str());
    push_str(&mut block, "}\n");
    assert(block@ =~= header_text(t@) + lines_text(entry_views(entries@)) + "}\n"@);
    (block, clauses, refused)
}

/// The result-view of a clause.
pub open spec fn result_view(r: Result<String, String>) -> Result<Seq<char>, Seq<char>> {
    match r {
        Ok(s) => Ok(s@),
        Err(e) => Err(e@),
    }
}

// ---------------------------------------------------------------------------------------------
// Ordering omissions
// ---------------------------------------------------------------------------------------------

/// The order omissions are reported in: resources before properties; a resource by name and then
/// reason; a property by type, name and then reason.
pub open spec fn omission_lt(a: OmissionView, b: OmissionView) -> bool {
    match (a, b) {
        (OmissionView::Resource { .. }, OmissionView::Property { .. }) => true,
        (OmissionView::Property { .. }, OmissionView::Resource { .. }) => false,
        (
            OmissionView::Resource { name: n1, reason: r1 },
            OmissionView::Resource { name: n2, reason: r2 },
        ) => pair_lt((n1, r1), (n2, r2)),
        (
            OmissionView::Property { resource_type: t1, name: n1, reason: r1 },
            OmissionView::Property { resource_type: t2, name: n2, reason: r2 },
        ) => seq_lt(t1, t2) || (t1 == t2 && pair_lt((n1, r1), (n2, r2))),
    }
}

/// No omission of `s` comes before one earlier in it.
pub open spec fn omissions_sorted(s: Seq<OmissionView>) -> bool {
    forall|a: int, b: int| 0 <= a < b < s.len() ==> !omission_lt(#[trigger] s[b], #[trigger] s[a])
}

/// The omission order is a strict total order.
pub proof fn lemma_omission_lt_order(a: OmissionView, b: OmissionView, c: OmissionView)
    ensures
        !omission_lt(a, a),
        a != b ==> (omission_lt(a, b) || omission_lt(b, a)),
        !(omission_lt(a, b) && omission_lt(b, a)),
        omission_lt(a, b) && omission_lt(b, c) ==> omission_lt(a, c),
{
    match (a, b, c) {
        (
            OmissionView::Resource { name: n1, reason: r1 },
            OmissionView::Resource { name: n2, reason: r2 },
            OmissionView::Resource { name: n3, reason: r3 },
        ) => {
            lemma_pair_lt_order((n1, r1), (n2, r2), (n3, r3));
        },
        (
            OmissionView::Property { resource_type: t1, name: n1, reason: r1 },
            OmissionView::Property { resource_type: t2, name: n2, reason: r2 },
            OmissionView::Property { resource_type: t3, name: n3, reason: r3 },
        ) => {
            lemma_pair_lt_order((n1, r1), (n2, r2), (n3, r3));
            lemma_seq_lt_irreflexive(t1);
            lemma_seq_lt_total(t1, t2);
            if seq_lt(t1, t2) && seq_lt(t2, t3) {
                lemma_seq_lt_transitive(t1, t2, t3);
            }
        },
        (OmissionView::Resource { name: n1, reason: r1 }, OmissionView::Resource { name: n2, reason: r2 }, _) => {
            lemma_pair_lt_order((n1, r1), (n2, r2), (n2, r2));
        },
        (OmissionView::Property { resource_type: t1, name: n1, reason: r1 }, OmissionView::Property { resource_type: t2, name: n2, reason: r2 }, _) => {
            lemma_pair_lt_order((n1, r1), (n2, r2), (n2, r2));
            lemma_seq_lt_irreflexive(t1);
            lemma_seq_lt_total(t1, t2);
        },
        (OmissionView::Resource { name: n1, reason: r1 }, _, _) => {
            lemma_pair_lt_order((n1, r1), (n1, r1), (n1, r1));
        },
        (OmissionView::Property { resource_type: t1, name: n1, reason: r1 }, _, _) => {
            lemma_pair_lt_order((n1, r1), (n1, r1), (n1, r1));
            lemma_seq_lt_irreflexive(t1);
        },
    }
}

/// Whether `a` comes before `b` in the order omissions are reported in.
fn omission_less(a: &Omission, b: &Omission) -> (r: bool)
    ensures
        r == omission_lt(a@, b@),
{
    match (a, b) {
        (Omission::Resource { .. }, Omission::Property { .. }) => true,
        (Omission::Property { .. }, Omission::Resource { .. }) => false,
        (
            Omission::Resource { name: n1, reason: r1 },
            Omission::Resource { name: n2, reason: r2 },
        ) => pair_less(n1.as_str(), r1.as_str(), n2.as_str(), r2.as_str()),
        (
            Omission::Property { resource_type: t1, name: n1, reason: r1 },
            Omission::Property { resource_type: t2, name: n2, reason: r2 },
        ) => {
            if str_lt(t1.as_str(), t2.as_str()) {
                true
            } else if str_eq(t1.as_str(), t2.as_str()) {
                pair_less(n1.as_str(), r1.as_str(), n2.as_str(), r2.as_str())
            } else {
                false
            }
        },
    }
}

/// `omissions` in the order they are reported in.
pub fn sort_omissions(omissions: Vec<Omission>) -> (r: Vec<Omission>)
    ensures
        omissions_sorted(omission_views(r@)),
        omission_views(r@).to_multiset() == omission_views(omissions@).to_multiset(),
{
    let ghost input = omission_views(omissions@);
    let mut rest = omissions;
    let mut sorted: Vec<Omission> = Vec::new();
    let mut k: usize = 0;
    let n = rest.len();
    assert(input.take(0) =~= Seq::<OmissionView>::empty());
    assert(omission_views(sorted@) =~= Seq::<OmissionView>::empty());
    assert(input.skip(0) =~= input);
    while k < n
        invariant
            k <= n,
            n == input.len(),
            omission_views(rest@) == input.skip(k as int),
            omissions_sorted(omission_views(sorted@)),
            omission_views(sorted@).to_multiset() == input.take(k as int).to_multiset(),
        decreases n - k,
    {
        let ghost old_rest = rest@;
        assert(omission_views(old_rest).len() == old_rest.len());
        let x = rest.remove(0);
        let ghost xv = x@;
        let ghost s = omission_views(sorted@);
        assert(xv == input[k as int]) by {
            assert(x == old_rest[0]);
            assert(omission_views(old_rest)[0] == old_rest[0]@);
            assert(input.skip(k as int)[0] == input[k as int]);
        }
        assert(rest@ =~= old_rest.drop_first());
        assert forall|m: int| 0 <= m < rest@.len() implies #[trigger] omission_views(rest@)[m]
            == input.skip(k + 1)[m] by {
            assert(omission_views(rest@)[m] == rest@[m]@);
            assert(rest@[m] == old_rest[m + 1]);
            assert(omission_views(old_rest)[m + 1] == old_rest[m + 1]@);
            assert(input.skip(k as int)[m + 1] == input[k + 1 + m]);
        }
        assert(omission_views(rest@) =~= input.skip(k + 1));
        let mut pos: usize = 0;
        while pos < sorted.len()
            invariant
                pos <= sorted.len(),
                s == omission_views(sorted@),
                xv == x@,
                forall|m: int| 0 <= m < pos ==> !omission_lt(xv, #[trigger] s[m]),
            ensures
                pos <= sorted.len(),
                s == omission_views(sorted@),
                forall|m: int| 0 <= m < pos ==> !omission_lt(xv, #[trigger] s[m]),
                pos < sorted.len() ==> omission_lt(xv, s[pos as int]),
            decreases sorted.len() - pos,
        {
            if omission_less(&x, &sorted[pos]) {
                break;
            }
            pos += 1;
        }
        sorted.insert(pos, x);
        proof {
            let s2 = omission_views(sorted@);
            assert(s2 =~= s.insert(pos as int, xv));
            assert forall|a: int, b: int| 0 <= a < b < s2.len() implies !omission_lt(
                #[trigger] s2[b],
                #[trigger] s2[a],
            ) by {
                if b < pos {
                    assert(s2[a] == s[a] && s2[b] == s[b]);
                } else if b == pos {
                    assert(s2[a] == s[a]);
                    lemma_omission_lt_order(xv, s[a], xv);
                } else if a < pos {
                    assert(s2[a] == s[a] && s2[b] == s[b - 1]);
                    // s[a] <= x < s[pos] <= s[b - 1]
                    lemma_omission_lt_order(s[a], xv, s[pos as int]);
                    lemma_omission_lt_order(s[pos as int], s[b - 1], s[a]);
                    lemma_omission_lt_order(xv, s[pos as int], s[b - 1]);
                    lemma_omission_lt_order(s[a], xv, s[b - 1]);
                    lemma_omission_lt_order(s[b - 1], s[a], xv);
                    if pos < b - 1 {
                        lemma_omission_lt_order(xv, s[pos as int], s[b - 1]);
                    }
                } else if a == pos {
                    assert(s2[b] == s[b - 1]);
                    lemma_omission_lt_order(s[pos as int], s[b - 1], xv);
                    lemma_omission_lt_order(xv, s[pos as int], s[b - 1]);
                    lemma_omission_lt_order(s[b - 1], xv, s[pos as int]);
                } else {
                    assert(s2[a] == s[a - 1] && s2[b] == s[b - 1]);
                }
            }
            assert(input.take(k + 1) =~= input.take(k as int).push(xv));
            vstd::seq_lib::to_multiset_insert(s, pos as int, xv);
            vstd::seq_lib::to_multiset_build(input.take(k as int), xv);
        }
        k += 1;
    }
    assert(input.take(k as int) =~= input);
    sorted
}

// ---------------------------------------------------------------------------------------------
// The generated file
// ---------------------------------------------------------------------------------------------

/// The sentence written when no rule was generated.
pub open spec fn no_rules_message() -> Seq<char> {
    "No rules were generated from this template, so no rules file was written. Validating against an empty rules file reports every template compliant."@
}

/// What a generation writes: the rules file, the omissions it reports and the lines that report
/// them, and the exit status.
pub struct Generated {
    /// The rules file; empty when no rule was written.
    pub rules: String,
    /// Every omission, in the order reported.
    pub omissions: Vec<Omission>,
    /// The lines for the error stream.
    pub warnings: Vec<String>,
    /// `SUCCESS_STATUS_CODE` when a rule was written, `ERROR_STATUS_CODE` otherwise.
    pub status: i32,
}

/// `g` is what printing the rules `rs` with the omissions `os` gives.
pub open spec fn printed(rs: Seq<PropertyRuleView>, os: Seq<OmissionView>, g: Generated) -> bool {
    let written = rules_written(rs);
    &&& g.status == if written == 0 {
        ERROR_STATUS_CODE
    } else {
        SUCCESS_STATUS_CODE
    }
    &&& g.rules@ == if written == 0 {
        Seq::<char>::empty()
    } else {
        rules_text(rs, os)
    }
    &&& omissions_sorted(omission_views(g.omissions@))
    &&& omission_views(g.omissions@).to_multiset() == (os + rules_refused(rs)).to_multiset()
    &&& g.warnings@.len() == g.omissions@.len() + if written == 0 {
        1int
    } else {
        0int
    }
    &&& forall|k: int|
        0 <= k < g.omissions@.len() ==> #[trigger] g.warnings@[k]@ == warning_text(
            g.omissions@[k]@,
        )
    &&& written == 0 ==> g.warnings@.last()@ == no_rules_message()
}

/// The order omissions are reported in is a strict total order.
pub proof fn lemma_omission_order_total()
    ensures
        strict_total_order(|a: OmissionView, b: OmissionView| omission_lt(a, b)),
{
    assert forall|a: OmissionView| !#[trigger] omission_lt(a, a) by {
        lemma_omission_lt_order(a, a, a);
    }
    assert forall|a: OmissionView, b: OmissionView| #[trigger] omission_lt(a, b) implies !omission_lt(b, a) by {
        lemma_omission_lt_order(a, b, a);
    }
    assert forall|a: OmissionView, b: OmissionView| a != b implies #[trigger] omission_lt(a, b) || omission_lt(b, a) by {
        lemma_omission_lt_order(a, b, a);
    }
}

/// Two sorted runs of the same omissions are the same run: sorting decides the order.
pub proof fn lemma_omissions_sorted_unique(a: Seq<OmissionView>, b: Seq<OmissionView>)
    requires
        omissions_sorted(a),
        omissions_sorted(b),
        a.to_multiset() == b.to_multiset(),
    ensures
        a == b,
{
    lemma_omission_order_total();
    let lt = |x: OmissionView, y: OmissionView| omission_lt(x, y);
    assert forall|i: int, j: int| 0 <= i < j < a.len() implies !lt(#[trigger] a[j], #[trigger] a[i]) by {
        assert(!omission_lt(a[j], a[i]));
    }
    assert forall|i: int, j: int| 0 <= i < j < b.len() implies !lt(#[trigger] b[j], #[trigger] b[i]) by {
        assert(!omission_lt(b[j], b[i]));
    }
    lemma_sorted_permutation_unique(a, b, lt);
}

/// `lines` are the warning lines of `sorted`, one for each omission, in order.
pub open spec fn warning_lines_of(sorted: Seq<OmissionView>, lines: Seq<String>) -> bool {
    &&& lines.len() == sorted.len()
    &&& forall|k: int| 0 <= k < sorted.len() ==> #[trigger] lines[k]@ == warning_text(sorted[k])
}

/// The warning lines for `omissions`, sorted first: one line for each omission, in the order
/// omissions are reported in, whatever order they were given in.
pub fn report(omissions: &Vec<Omission>) -> (r: Vec<String>)
    ensures
        exists|sorted: Seq<OmissionView>|
            {
                &&& omissions_sorted(sorted)
                &&& #[trigger] sorted.to_multiset() == omission_views(omissions@).to_multiset()
                &&& warning_lines_of(sorted, r@)
            },
        forall|sorted: Seq<OmissionView>|
            omissions_sorted(sorted) && #[trigger] sorted.to_multiset() == omission_views(
                omissions@,
            ).to_multiset() ==> warning_lines_of(sorted, r@),
{
    let mut copies: Vec<Omission> = Vec::new();
    let mut k: usize = 0;
    while k < omissions.len()
        invariant
            k <= omissions.len(),
            omission_views(copies@) == omission_views(omissions@.take(k as int)),
        decreases omissions.len() - k,
    {
        let ghost before = omission_views(copies@);
        let c = omissions[k].copied();
        copies.push(c);
        assert(omission_views(copies@) =~= before.push(omissions@[k as int]@));
        assert(omission_views(omissions@.take(k + 1)) =~= omission_views(omissions@.take(k as int)).push(
            omissions@[k as int]@,
        ));
        k += 1;
    }
    assert(omissions@.take(k as int) =~= omissions@);
    let sorted = sort_omissions(copies);
    let ghost sv = omission_views(sorted@);
    let mut r: Vec<String> = Vec::new();
    let mut i: usize = 0;
    while i < sorted.len()
        invariant
            i <= sorted.len(),
            sv == omission_views(sorted@),
            r@.len() == i,
            forall|m: int| 0 <= m < i ==> #[trigger] r@[m]@ == warning_text(sv[m]),
        decreases sorted.len() - i,
    {
        r.push(sorted[i].warning());
        i += 1;
    }
    assert(warning_lines_of(sv, r@));
    assert forall|s2: Seq<OmissionView>|
        omissions_sorted(s2) && #[trigger] s2.to_multiset() == omission_views(omissions@).to_multiset()
        implies warning_lines_of(s2, r@) by {
        lemma_omissions_sorted_unique(s2, sv);
    }
    r
}

/// The rules file for `map`, with a comment in each rule for its omitted properties.
///
/// Each run of properties of one type becomes a rule over the resources of that type, with one
/// line per property name in name order: its clause, or a comment saying why there is none. A
/// type none of whose properties gets a clause gets no rule. The omissions — those given and those
/// refused here — are reported in order, and when no rule was written the run fails with a
/// sentence saying so, since validating against an empty rules file passes every template.
pub fn print_rules(map: RuleMap, omissions: Vec<Omission>) -> (g: Generated)
    ensures
        printed(rule_views(map.rules@), omission_views(omissions@), g),
{
    let ghost rs = rule_views(map.rules@);
    let ghost os = omission_views(omissions@);
    let rules = map.rules;
    let mut text = String::new();
    let mut written: usize = 0;
    let mut refused: Vec<Omission> = Vec::new();
    let mut i: usize = 0;
    assert(rs.skip(0) =~= rs);
    assert(omission_views(refused@) =~= Seq::<OmissionView>::empty());
    while i < rules.len()
        invariant
            i <= rules.len(),
            rs == rule_views(rules@),
            os == omission_views(omissions@),
            written <= i,
            text@ + rules_text(rs.skip(i as int), os) == rules_text(rs, os),
            written + rules_written(rs.skip(i as int)) == rules_written(rs),
            omission_views(refused@) + rules_refused(rs.skip(i as int)) == rules_refused(rs),
        decreases rules.len() - i,
    {
        let t = rules[i].resource_type.clone();
        let ghost rest = rs.skip(i as int);
        let mut j: usize = i + 1;
        proof {
            assert(rest[0] == rs[i as int]);
            assert(rest.drop_first() =~= rs.skip(i + 1));
        }
        while j < rules.len() && rules[j].resource_type == t
            invariant
                i < j <= rules.len(),
                rs == rule_views(rules@),
                rest == rs.skip(i as int),
                t@ == rs[i as int].resource_type,
                run_length(rest, t@) == (j - i) + run_length(rs.skip(j as int), t@),
            decreases rules.len() - j,
        {
            proof {
                let tail = rs.skip(j as int);
                assert(tail[0] == rs[j as int]);
                assert(tail.drop_first() =~= rs.skip(j + 1));
            }
            j += 1;
        }
        proof {
            let tail = rs.skip(j as int);
            if j < rules.len() {
                assert(tail[0] == rs[j as int]);
            } else {
                assert(tail.len() == 0);
            }
            assert(run_length(rest, t@) == j - i);
            assert(first_group(rest) =~= rs.subrange(i as int, j as int));
            assert(after_first_group(rest) =~= rs.skip(j as int));
            lemma_run_length_bound(rest, t@);
        }
        let (block, clauses, mut group_refused_list) = build_block(&t, &rules, i, j, &omissions);
        let ghost before_refused = omission_views(refused@);
        let ghost added = omission_views(group_refused_list@);
        push_str(&mut text, block.as_str());
        if clauses > 0 {
            written += 1;
        }
        refused.append(&mut group_refused_list);
        proof {
            assert(omission_views(refused@) =~= before_refused + added);
            assert(text@ + rules_text(rs.skip(j as int), os) =~= rules_text(rs, os));
        }
        i = j;
    }
    let mut all = omissions;
    let ghost refused_views = omission_views(refused@);
    all.append(&mut refused);
    proof {
        assert(rs.skip(i as int) =~= Seq::<PropertyRuleView>::empty());
        assert(omission_views(all@) =~= os + refused_views);
    }
    let sorted = sort_omissions(all);
    let mut warnings = report(&sorted);
    if written == 0 {
        warnings.push(
            string_of(
                "No rules were generated from this template, so no rules file was written. Validating against an empty rules file reports every template compliant.",
            ),
        );
        Generated { rules: String::new(), omissions: sorted, warnings, status: ERROR_STATUS_CODE }
    } else {
        Generated { rules: text, omissions: sorted, warnings, status: SUCCESS_STATUS_CODE }
    }
}

} // verus!
