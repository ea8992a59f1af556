//! Rule generation: from the resources of a CloudFormation template, a rules file that the same
//! template passes, with a comment for everything the rules cannot describe.
use vstd::prelude::*;

use crate::commands::rule_map::{
    fields_of, field, find_field, gen_rules, rule_views, omission_views, property_omissions_of,
    resource_omissions, rule_map_of, total_entries, type_of, typed_properties, Omission,
    OmissionView, RuleMap,
};
use crate::commands::rule_map::{lemma_property_omissions_unique, lemma_rule_map_unique};
use crate::commands::rule_text::{
    lemma_omissions_sorted_unique,
    omissions_sorted, print_rules, printed, report, sort_omissions, warning_text, Generated,
};
use crate::commands::wrapper::Writer;
use crate::errors::Error;
use vstd::utf8::encode_utf8;
use crate::text::{
    push_str, has_control, int_text, int_to_text, join, join_strings, push_char, quote_guard_string,
    quoted, string_of, views,
};

verus! {

/// A value of a loaded template, as the evaluator compares it.
pub enum Value {
    Null,
    String(String),
    Bool(bool),
    Int(i64),
    /// A float, held as the guard float literal that denotes it (a whole number keeps its `.0`),
    /// or `None` for a float that is not finite, which no guard literal denotes.
    Float(Option<String>),
    List(Vec<Value>),
    /// A mapping, in the order of its keys in the document.
    Mapping(Vec<(String, Value)>),
    /// The kinds below are written only in a rules file; no template produces them.
    Regex(String),
    Char(char),
    RangeInt(i64, i64),
    RangeChar(char, char),
}

/// `s` with the `!` characters at its start taken off.
pub open spec fn without_bangs(s: Seq<char>) -> Seq<char>
    decreases s.len(),
{
    if s.len() > 0 && s[0] == '!' {
        without_bangs(s.drop_first())
    } else {
        s
    }
}

/// The key that a short-form intrinsic function of a template reads as, by its tag: `!Ref` and
/// `!Condition` as `Ref` and `Condition`, any other `!Name` as `Fn::Name`.
pub open spec fn intrinsic_key_text(tag: Seq<char>) -> Seq<char> {
    let name = without_bangs(tag);
    if name == "Ref"@ || name == "Condition"@ {
        name
    } else {
        "Fn::"@ + name
    }
}

/// The key a short-form intrinsic function reads as (see [`intrinsic_key_text`]).
pub fn intrinsic_key(tag: &str) -> (r: String)
    ensures
        r@ == intrinsic_key_text(tag@),
{
    let cs = crate::text::chars_of(tag);
    let mut start: usize = 0;
    assert(tag@.skip(0) =~= tag@);
    while start < cs.len() && cs[start] == '!'
        invariant
            cs@ == tag@,
            start <= cs@.len(),
            without_bangs(tag@) == without_bangs(tag@.skip(start as int)),
        decreases cs.len() - start,
    {
        assert(tag@.skip(start as int).drop_first() =~= tag@.skip(start + 1));
        start += 1;
    }
    assert(without_bangs(tag@.skip(start as int)) == tag@.skip(start as int));
    let mut rest: Vec<char> = Vec::new();
    let mut k: usize = start;
    while k < cs.len()
        invariant
            cs@ == tag@,
            start <= k <= cs@.len(),
            rest@ == tag@.subrange(start as int, k as int),
        decreases cs.len() - k,
    {
        rest.push(cs[k]);
        k += 1;
        assert(rest@ =~= tag@.subrange(start as int, k as int));
    }
    let name = crate::text::string_from_chars(&rest);
    assert(name@ =~= tag@.skip(start as int));
    assert(without_bangs(tag@) == name@);
    if crate::text::str_eq(name.as_str(), "Ref") || crate::text::str_eq(name.as_str(), "Condition") {
        name
    } else {
        let mut key = string_of("Fn::");
        push_str(&mut key, name.as_str());
        key
    }
}

/// A short-form intrinsic function of a template, `!Name value`, as the mapping it stands for: a
/// single entry from its key (see [`intrinsic_key_text`]) to `value`.
pub fn short_form_intrinsic(tag: &str, value: Value) -> (r: Value)
    ensures
        r matches Value::Mapping(m) && m@.len() == 1 && m@[0].0@ == intrinsic_key_text(tag@)
            && m@[0].1 == value,
{
    let key = intrinsic_key(tag);
    let mut m: Vec<(String, Value)> = Vec::new();
    m.push((key, value));
    Value::Mapping(m)
}

/// Why a value holding a control character has no guard literal.
pub open spec fn control_character_reason() -> Seq<char> {
    "its value holds a line ending or another control character, and a guard string literal ends at the end of its line"@
}

/// Why a non-finite float has no guard literal.
pub open spec fn non_finite_reason() -> Seq<char> {
    "its value is a non-finite float, which no guard float literal denotes"@
}

/// Why a value of a rules-only kind has no guard literal here.
pub open spec fn rules_only_reason() -> Seq<char> {
    "its value is of a kind only a rules file can hold, so no template can produce it and no literal here denotes it"@
}

/// The guard text for `b`.
pub open spec fn bool_text(b: bool) -> Seq<char> {
    if b {
        "true"@
    } else {
        "false"@
    }
}

/// The guard source that denotes `v`, or the reason there is none.
///
/// A list renders as its items between brackets, a mapping as its quoted keys and values between
/// braces, both separated by bare commas; the first item or entry that cannot be written decides
/// the reason.
pub open spec fn guard_text(v: Value) -> Result<Seq<char>, Seq<char>>
    decreases v, 0nat,
{
    match v {
        Value::Null => Ok("null"@),
        Value::String(s) => if has_control(s@) {
            Err(control_character_reason())
        } else {
            Ok(quoted(s@))
        },
        Value::Bool(b) => Ok(bool_text(b)),
        Value::Int(i) => Ok(int_text(i as int)),
        Value::Float(f) => match f {
            Some(t) => Ok(t@),
            None => Err(non_finite_reason()),
        },
        Value::List(items) => match guard_items(items@, items@.len()) {
            Ok(parts) => Ok(seq!['['] + join(parts, seq![',']) + seq![']']),
            Err(e) => Err(e),
        },
        Value::Mapping(entries) => match guard_entries(entries@, entries@.len()) {
            Ok(parts) => Ok(seq!['{'] + join(parts, seq![',']) + seq!['}']),
            Err(e) => Err(e),
        },
        _ => Err(rules_only_reason()),
    }
}

/// The guard text of each of the first `n` of `items`, or the reason for the first that has none.
pub open spec fn guard_items(items: Seq<Value>, n: nat) -> Result<Seq<Seq<char>>, Seq<char>>
    decreases items, n,
{
    if n == 0 || n > items.len() {
        Ok(Seq::empty())
    } else {
        match guard_items(items, (n - 1) as nat) {
            Err(e) => Err(e),
            Ok(parts) => match guard_text(items[n - 1]) {
                Err(e) => Err(e),
                Ok(t) => Ok(parts.push(t)),
            },
        }
    }
}

/// The guard text of one mapping entry: its quoted key, a colon and its value.
pub open spec fn guard_entry(name: Seq<char>, text: Result<Seq<char>, Seq<char>>) -> Result<
    Seq<char>,
    Seq<char>,
> {
    if has_control(name) {
        Err(control_character_reason())
    } else {
        match text {
            Ok(t) => Ok(quoted(name) + seq![':'] + t),
            Err(e) => Err(e),
        }
    }
}

/// The guard text of each of the first `n` of `entries`, or the reason for the first that has
/// none.
pub open spec fn guard_entries(entries: Seq<(String, Value)>, n: nat) -> Result<
    Seq<Seq<char>>,
    Seq<char>,
>
    decreases entries, n,
{
    if n == 0 || n > entries.len() {
        Ok(Seq::empty())
    } else {
        match guard_entries(entries, (n - 1) as nat) {
            Err(e) => Err(e),
            Ok(parts) => match guard_entry(entries[n - 1].0@, guard_text(entries[n - 1].1)) {
                Err(e) => Err(e),
                Ok(t) => Ok(parts.push(t)),
            },
        }
    }
}

/// Once one of the first `k` items has no guard text, neither have the first `n`.
pub proof fn lemma_guard_items_error_persists(items: Seq<Value>, k: nat, n: nat)
    requires
        k <= n <= items.len(),
        guard_items(items, k) is Err,
    ensures
        guard_items(items, n) == guard_items(items, k),
    decreases n - k,
{
    if k < n {
        lemma_guard_items_error_persists(items, k, (n - 1) as nat);
    }
}

/// Once one of the first `k` entries has no guard text, neither have the first `n`.
pub proof fn lemma_guard_entries_error_persists(entries: Seq<(String, Value)>, k: nat, n: nat)
    requires
        k <= n <= entries.len(),
        guard_entries(entries, k) is Err,
    ensures
        guard_entries(entries, n) == guard_entries(entries, k),
    decreases n - k,
{
    if k < n {
        lemma_guard_entries_error_persists(entries, k, (n - 1) as nat);
    }
}

/// Each of the first `n` entries of a mapping whose keys and values all have guard text is
/// rendered, in order, as its quoted key, a colon and its value's text.
proof fn lemma_entries_all_rendered(entries: Seq<(String, Value)>, n: nat)
    requires
        n <= entries.len(),
        forall|i: int|
            0 <= i < entries.len() ==> !has_control(#[trigger] entries[i].0@) && guard_text(
                entries[i].1,
            ) is Ok,
    ensures
        guard_entries(entries, n) is Ok,
        guard_entries(entries, n)->Ok_0.len() == n,
        forall|i: int|
            0 <= i < n ==> #[trigger] guard_entries(entries, n)->Ok_0[i] == quoted(entries[i].0@)
                + seq![':'] + guard_text(entries[i].1)->Ok_0,
    decreases n,
{
    if n > 0 {
        lemma_entries_all_rendered(entries, (n - 1) as nat);
        assert(!has_control(entries[n - 1].0@));
        let prev = guard_entries(entries, (n - 1) as nat)->Ok_0;
        assert forall|i: int| 0 <= i < n implies #[trigger] guard_entries(entries, n)->Ok_0[i]
            == quoted(entries[i].0@) + seq![':'] + guard_text(entries[i].1)->Ok_0 by {
            if i < n - 1 {
                assert(guard_entries(entries, n)->Ok_0[i] == prev[i]);
            }
        }
    }
}

/// Each of the first `n` items of a list whose items all have guard text is rendered, in order.
proof fn lemma_items_all_rendered(items: Seq<Value>, n: nat)
    requires
        n <= items.len(),
        forall|i: int| 0 <= i < items.len() ==> guard_text(#[trigger] items[i]) is Ok,
    ensures
        guard_items(items, n) is Ok,
        guard_items(items, n)->Ok_0.len() == n,
        forall|i: int|
            0 <= i < n ==> #[trigger] guard_items(items, n)->Ok_0[i] == guard_text(items[i])->Ok_0,
    decreases n,
{
    if n > 0 {
        lemma_items_all_rendered(items, (n - 1) as nat);
        assert(guard_text(items[n - 1]) is Ok);
        let prev = guard_items(items, (n - 1) as nat)->Ok_0;
        assert forall|i: int| 0 <= i < n implies #[trigger] guard_items(items, n)->Ok_0[i]
            == guard_text(items[i])->Ok_0 by {
            if i < n - 1 {
                assert(guard_items(items, n)->Ok_0[i] == prev[i]);
            }
        }
    }
}

/// A mapping whose keys and values all have guard text is rendered entry by entry, none left out
/// and in order: between braces, one part for each entry -- its quoted key, a colon and its
/// value's text -- the parts separated by commas.
pub proof fn law_mapping_renders_every_entry(v: Value)
    requires
        v is Mapping,
        forall|i: int|
            0 <= i < v->Mapping_0@.len() ==> !has_control(#[trigger] v->Mapping_0@[i].0@)
                && guard_text(v->Mapping_0@[i].1) is Ok,
    ensures
        exists|parts: Seq<Seq<char>>|
            {
                &&& parts.len() == v->Mapping_0@.len()
                &&& forall|i: int|
                    0 <= i < parts.len() ==> #[trigger] parts[i] == quoted(v->Mapping_0@[i].0@)
                        + seq![':'] + guard_text(v->Mapping_0@[i].1)->Ok_0
                &&& guard_text(v) == Ok::<Seq<char>, Seq<char>>(
                    seq!['{'] + join(parts, seq![',']) + seq!['}'],
                )
            },
{
    let entries = v->Mapping_0@;
    lemma_entries_all_rendered(entries, entries.len());
    let parts = guard_entries(entries, entries.len())->Ok_0;
    assert(guard_text(v) == Ok::<Seq<char>, Seq<char>>(
        seq!['{'] + join(parts, seq![',']) + seq!['}'],
    ));
}

/// A list whose items all have guard text is rendered item by item, none left out and in order:
/// between brackets, the items' texts separated by commas.
pub proof fn law_list_renders_every_item(v: Value)
    requires
        v is List,
        forall|i: int| 0 <= i < v->List_0@.len() ==> guard_text(#[trigger] v->List_0@[i]) is Ok,
    ensures
        exists|parts: Seq<Seq<char>>|
            {
                &&& parts.len() == v->List_0@.len()
                &&& forall|i: int|
                    0 <= i < parts.len() ==> #[trigger] parts[i] == guard_text(v->List_0@[i])->Ok_0
                &&& guard_text(v) == Ok::<Seq<char>, Seq<char>>(
                    seq!['['] + join(parts, seq![',']) + seq![']'],
                )
            },
{
    let items = v->List_0@;
    lemma_items_all_rendered(items, items.len());
    let parts = guard_items(items, items.len())->Ok_0;
    assert(guard_text(v) == Ok::<Seq<char>, Seq<char>>(
        seq!['['] + join(parts, seq![',']) + seq![']'],
    ));
}

/// The views of a `Result` of strings.
pub open spec fn result_view(r: Result<String, String>) -> Result<Seq<char>, Seq<char>> {
    match r {
        Ok(s) => Ok(s@),
        Err(e) => Err(e@),
    }
}

/// `v` as guard source, or the reason no guard literal denotes it.
///
/// The value is the one the evaluator compares against, so the text is the one the rules parser
/// reads back as that same value: `null` for a null, a quoted and escaped literal for a string,
/// the decimal numeral for an integer, the float literal with its fractional part for a float.
pub fn value_to_guard(v: &Value) -> (r: Result<String, String>)
    ensures
        result_view(r) == guard_text(*v),
    decreases v,
{
    match v {
        Value::Null => Ok(string_of("null")),
        Value::String(s) => match quote_guard_string(s.as_str()) {
            Some(q) => Ok(q),
            None => Err(string_of(
                "its value holds a line ending or another control character, and a guard string literal ends at the end of its line",
            )),
        },
        Value::Bool(b) => if *b {
            Ok(string_of("true"))
        } else {
            Ok(string_of("false"))
        },
        Value::Int(i) => Ok(int_to_text(*i)),
        Value::Float(f) => match f {
            Some(t) => Ok(t.clone()),
            None => Err(string_of(
                "its value is a non-finite float, which no guard float literal denotes",
            )),
        },
        Value::List(items) => {
            let mut parts: Vec<String> = Vec::new();
            let mut i: usize = 0;
            assert(views(parts@) =~= Seq::<Seq<char>>::empty());
            while i < items.len()
                invariant
                    *v == Value::List(*items),
                    i <= items.len(),
                    guard_items(items@, i as nat) == Ok::<Seq<Seq<char>>, Seq<char>>(
                        views(parts@),
                    ),
                decreases items.len() - i,
            {
                proof {
                    assert(decreases_to!(*v => *items));
                    assert(decreases_to!(*items => items@));
                    assert(decreases_to!(items@ => items@[i as int]));
                }
                let ghost before = views(parts@);
                match value_to_guard(&items[i]) {
                    Ok(t) => {
                        assert(guard_text(items@[i as int]) == Ok::<Seq<char>, Seq<char>>(t@));
                        parts.push(t);
                        assert(views(parts@) =~= before.push(parts@.last()@));
                        assert(guard_items(items@, (i + 1) as nat) == Ok::<
                            Seq<Seq<char>>,
                            Seq<char>,
                        >(views(parts@)));
                    },
                    Err(e) => {
                        proof {
                            lemma_guard_items_error_persists(
                                items@,
                                (i + 1) as nat,
                                items@.len(),
                            );
                        }
                        return Err(e);
                    },
                }
                i += 1;
            }
            let mut r = String::new();
            push_char(&mut r, '[');
            let body = join_strings(&parts, ",");
            proof {
                reveal_strlit(",");
                assert(","@ =~= seq![',']);
            }
            r.append(body.as_str());
            push_char(&mut r, ']');
            assert(r@ =~= seq!['['] + join(views(parts@), seq![',']) + seq![']']);
            assert(i == items.len());
            Ok(r)
        },
        Value::Mapping(entries) => {
            let mut parts: Vec<String> = Vec::new();
            let mut i: usize = 0;
            assert(views(parts@) =~= Seq::<Seq<char>>::empty());
            while i < entries.len()
                invariant
                    *v == Value::Mapping(*entries),
                    i <= entries.len(),
                    guard_entries(entries@, i as nat) == Ok::<Seq<Seq<char>>, Seq<char>>(
                        views(parts@),
                    ),
                decreases entries.len() - i,
            {
                let name = &entries[i].0;
                let q = match quote_guard_string(name.as_str()) {
                    Some(q) => q,
                    None => {
                        proof {
                            lemma_guard_entries_error_persists(
                                entries@,
                                (i + 1) as nat,
                                entries@.len(),
                            );
                        }
                        return Err(string_of(
                            "its value holds a line ending or another control character, and a guard string literal ends at the end of its line",
                        ));
                    },
                };
                proof {
                    assert(decreases_to!(*v => *entries));
                    assert(decreases_to!(*entries => entries@));
                    assert(decreases_to!(entries@ => entries@[i as int]));
                    assert(decreases_to!(entries@[i as int] => entries@[i as int].1));
                }
                let ghost before = views(parts@);
                match value_to_guard(&entries[i].1) {
                    Ok(t) => {
                        assert(guard_text(entries@[i as int].1) == Ok::<Seq<char>, Seq<char>>(
                            t@,
                        ));
                        let mut part = q;
                        push_char(&mut part, ':');
                        part.append(t.as_str());
                        assert(part@ =~= quoted(name@) + seq![':'] + t@);
                        assert(!has_control(entries@[i as int].0@));
                        parts.push(part);
                        assert(views(parts@) =~= before.push(parts@.last()@));
                        assert(guard_entries(entries@, (i + 1) as nat) == Ok::<
                            Seq<Seq<char>>,
                            Seq<char>,
                        >(views(parts@)));
                    },
                    Err(e) => {
                        proof {
                            lemma_guard_entries_error_persists(
                                entries@,
                                (i + 1) as nat,
                                entries@.len(),
                            );
                        }
                        return Err(e);
                    },
                }
                i += 1;
            }
            let mut r = String::new();
            push_char(&mut r, '{');
            let body = join_strings(&parts, ",");
            proof {
                reveal_strlit(",");
                assert(","@ =~= seq![',']);
            }
            r.append(body.as_str());
            push_char(&mut r, '}');
            assert(r@ =~= seq!['{'] + join(views(parts@), seq![',']) + seq!['}']);
            Ok(r)
        },
        _ => Err(string_of(
            "its value is of a kind only a rules file can hold, so no template can produce it and no literal here denotes it",
        )),
    }
}

// ---------------------------------------------------------------------------------------------
// The command
// ---------------------------------------------------------------------------------------------

/// The `rulegen` command: generates rules from a CloudFormation template.
pub struct Rulegen {
    /// Where the rules go; standard output when `None`.
    pub output: Option<String>,
    /// The path to the template.
    pub template: String,
}

/// The `Resources` section of a template.
pub open spec fn resources_section(template: Value) -> Option<Value> {
    match fields_of(template) {
        Some(f) => field(f, "Resources"@),
        None => None,
    }
}

/// How many property entries the typed resources of a template have in all.
pub open spec fn template_entries(template: Value) -> nat {
    match resources_section(template) {
        Some(section) => match fields_of(section) {
            Some(rs) => total_entries(rs),
            None => 0,
        },
        None => 0,
    }
}

/// The sentence for a template with no `Resources` section.
pub open spec fn no_resources_message() -> Seq<char> {
    "Template lacks a Resources section"@
}

/// The sentence for a `Resources` section that is not a mapping.
pub open spec fn invalid_resources_message() -> Seq<char> {
    "Template Resources section has an invalid structure: it is not a mapping of logical id to resource"@
}

/// The property entries one resource contributes to the count of `template_entries`.
pub open spec fn resource_entries(resource: Value) -> nat {
    match type_of(resource) {
        Some(t) => typed_properties(resource, t).len(),
        None => 0,
    }
}

/// How many property entries `resource` contributes: those of its `Properties` mapping, when it
/// has a string `Type`.
fn count_resource_entries(resource: &Value) -> (n: usize)
    ensures
        n == resource_entries(*resource),
{
    if let Value::Mapping(f) = resource {
        if let Some(k) = find_field(f, "Type") {
            if let Value::String(_) = &f[k].1 {
                if let Some(p) = find_field(f, "Properties") {
                    if let Value::Mapping(ps) = &f[p].1 {
                        return ps.len();
                    }
                }
            }
        }
    }
    0
}

/// How many property entries the typed resources of `template` have in all, or `usize::MAX`
/// when they have that many or more: the bound rule generation asks of a template.
pub fn template_entry_count(template: &Value) -> (n: usize)
    ensures
        n == (if template_entries(*template) < usize::MAX {
            template_entries(*template)
        } else {
            usize::MAX as nat
        }),
{
    let root = match template {
        Value::Mapping(fields) => fields,
        _ => {
            return 0;
        },
    };
    let k = match find_field(root, "Resources") {
        Some(k) => k,
        None => {
            return 0;
        },
    };
    let resources = match &root[k].1 {
        Value::Mapping(resources) => resources,
        _ => {
            return 0;
        },
    };
    let ghost rs = resources@;
    let mut total: usize = 0;
    let mut i: usize = 0;
    while i < resources.len()
        invariant
            rs == resources@,
            i <= rs.len(),
            total == (if total_entries(rs.take(i as int)) < usize::MAX {
                total_entries(rs.take(i as int))
            } else {
                usize::MAX as nat
            }),
        decreases resources.len() - i,
    {
        let e = count_resource_entries(&resources[i].1);
        assert(rs.take(i + 1).drop_last() =~= rs.take(i as int));
        assert(total_entries(rs.take(i + 1)) == total_entries(rs.take(i as int)) + resource_entries(
            rs[i as int].1,
        ));
        if e > usize::MAX - total {
            total = usize::MAX;
        } else {
            total = total + e;
        }
        i += 1;
    }
    assert(rs.take(i as int) =~= rs);
    total
}

/// The omissions of a generation over `resources`: those for resources, in template order, then
/// those for properties, by type and name.
pub open spec fn generated_omissions(resources: Seq<(String, Value)>, os: Seq<OmissionView>) -> bool {
    &&& resource_omissions(resources).len() <= os.len()
    &&& os.take(resource_omissions(resources).len() as int) == resource_omissions(resources)
    &&& property_omissions_of(resources, os.skip(resource_omissions(resources).len() as int))
}

/// The rule map of a loaded template and what its rules will not describe; an error when the
/// template has no `Resources` mapping.
pub fn generate_rule_map(template: &Value) -> (r: Result<(RuleMap, Vec<Omission>), Error>)
    requires
        template_entries(*template) < usize::MAX,
    ensures
        match resources_section(*template) {
            None => r matches Err(Error::ParseError(m)) && m@ == no_resources_message(),
            Some(section) => match fields_of(section) {
                None => r matches Err(Error::ParseError(m)) && m@ == invalid_resources_message(),
                Some(rs) => r matches Ok(out) && rule_map_of(rs, out.0) && generated_omissions(
                    rs,
                    omission_views(out.1@),
                ),
            },
        },
{
    let root = match template {
        Value::Mapping(fields) => fields,
        _ => {
            return Err(Error::ParseError(string_of("Template lacks a Resources section")));
        },
    };
    let k = match find_field(root, "Resources") {
        Some(k) => k,
        None => {
            return Err(Error::ParseError(string_of("Template lacks a Resources section")));
        },
    };
    match &root[k].1 {
        Value::Mapping(resources) => Ok(gen_rules(resources)),
        _ => Err(
            Error::ParseError(
                string_of(
                    "Template Resources section has an invalid structure: it is not a mapping of logical id to resource",
                ),
            ),
        ),
    }
}

/// The warning lines for `os` run together, one per line.
pub open spec fn warning_lines(os: Seq<OmissionView>) -> Seq<char>
    decreases os.len(),
{
    if os.len() == 0 {
        Seq::empty()
    } else {
        warning_lines(os.drop_last()) + warning_text(os.last()) + "\n"@
    }
}

/// Whether `w2` holds what `w1` held, on both streams.
pub open spec fn unchanged(w1: Writer, w2: Writer) -> bool {
    &&& w2.written() == w1.written()
    &&& w2.collected() == w1.collected()
    &&& w2.err_written() == w1.err_written()
    &&& w2.err_collected() == w1.err_collected()
}

/// The rule map of a loaded template, with a warning written to the error stream of `writer`
/// for each omission, in the order omissions are reported in; an error when standard error
/// refuses a warning, which ends the writing. The output is left alone.
pub fn parse_template_and_call_gen(template: &Value, writer: &mut Writer) -> (r: Result<
    RuleMap,
    Error,
>)
    requires
        template_entries(*template) < usize::MAX,
    ensures
        final(writer).written() == old(writer).written(),
        final(writer).collected() == old(writer).collected(),
        match resources_section(*template) {
            None => r matches Err(Error::ParseError(m)) && m@ == no_resources_message()
                && unchanged(*old(writer), *final(writer)),
            Some(section) => match fields_of(section) {
                None => r matches Err(Error::ParseError(m)) && m@ == invalid_resources_message()
                    && unchanged(*old(writer), *final(writer)),
                Some(rs) => (r matches Ok(map) ==> rule_map_of(rs, map)) && (r matches Err(e)
                    ==> e is IoError) && (old(writer).err_collected() is Some ==> r is Ok) && exists|
                    os: Seq<OmissionView>,
                    sorted: Seq<OmissionView>,
                |
                    {
                        &&& generated_omissions(rs, os)
                        &&& omissions_sorted(sorted)
                        &&& sorted.to_multiset() == os.to_multiset()
                        &&& r is Ok ==> final(writer).err_written() == old(writer).err_written()
                            + encode_utf8(warning_lines(sorted))
                        &&& r is Ok ==> final(writer).err_collected() == match old(
                            writer,
                        ).err_collected() {
                            Some(b) => Some(b + encode_utf8(warning_lines(sorted))),
                            None => None::<Seq<u8>>,
                        }
                    },
            },
        },
{
    let (map, omissions) = generate_rule_map(template)?;
    let ghost os = omission_views(omissions@);
    let sorted = sort_omissions(omissions);
    let lines = report(&sorted);
    let ghost start = writer.err_written();
    let ghost start_collected = writer.err_collected();
    let ghost sv = omission_views(sorted@);
    let mut k: usize = 0;
    assert(sv.take(0) =~= Seq::<OmissionView>::empty());
    assert(encode_utf8(Seq::<char>::empty()) =~= Seq::<u8>::empty());
    assert(start + Seq::<u8>::empty() =~= start);
    while k < lines.len()
        invariant
            k <= lines@.len(),
            lines@.len() == sorted@.len(),
            sv == omission_views(sorted@),
            forall|m: int| 0 <= m < sorted@.len() ==> #[trigger] lines@[m]@ == warning_text(sorted@[m]@),
            writer.err_written() == start + encode_utf8(warning_lines(sv.take(k as int))),
            writer.err_collected() is Some <==> start_collected is Some,
            writer.err_collected() == match start_collected {
                Some(b) => Some(b + encode_utf8(warning_lines(sv.take(k as int)))),
                None => None::<Seq<u8>>,
            },
            writer.written() == old(writer).written(),
            writer.collected() == old(writer).collected(),
            start_collected == old(writer).err_collected(),
            start == old(writer).err_written(),
            omissions_sorted(sv),
            sv.to_multiset() == os.to_multiset(),
            match resources_section(*template) {
                Some(section) => match fields_of(section) {
                    Some(rs) => rule_map_of(rs, map) && generated_omissions(rs, os),
                    None => false,
                },
                None => false,
            },
        decreases lines.len() - k,
    {
        let ghost before = warning_lines(sv.take(k as int));
        let ghost line = lines@[k as int]@;
        match writer.write_err(lines[k].as_str()) {
            Ok(()) => {},
            Err(e) => {
                return Err(e);
            },
        }
        assert(sv.take(k + 1).drop_last() =~= sv.take(k as int));
        assert(sv.take(k + 1).last() == sorted@[k as int]@);
        assert(warning_lines(sv.take(k + 1)) =~= before + (line + "\n"@));
        proof {
            crate::commands::wrapper::lemma_encode_utf8_concat(before, line + "\n"@);
        }
        k += 1;
    }
    assert(sv.take(k as int) =~= sv);
    Ok(map)
}

/// `g` is what a generation over `resources` writes: the rules printed from their rule map with
/// their omissions.
pub open spec fn generation_of(resources: Seq<(String, Value)>, g: Generated) -> bool {
    exists|map: RuleMap, os: Seq<OmissionView>|
        {
            &&& #[trigger] rule_map_of(resources, map)
            &&& #[trigger] generated_omissions(resources, os)
            &&& printed(rule_views(map.rules@), os, g)
        }
}

/// A whole generation over a loaded template: the rules file, its omissions and warnings, and
/// the exit status.
pub fn generate(template: &Value) -> (r: Result<Generated, Error>)
    requires
        template_entries(*template) < usize::MAX,
    ensures
        match resources_section(*template) {
            None => r matches Err(Error::ParseError(m)) && m@ == no_resources_message(),
            Some(section) => match fields_of(section) {
                None => r matches Err(Error::ParseError(m)) && m@ == invalid_resources_message(),
                Some(rs) => r matches Ok(g) && generation_of(rs, g),
            },
        },
{
    let (map, omissions) = match generate_rule_map(template) {
        Ok(out) => out,
        Err(e) => {
            return Err(e);
        },
    };
    let ghost m = map;
    let ghost os = omission_views(omissions@);
    let g = print_rules(map, omissions);
    proof {
        let rs = fields_of(resources_section(*template)->Some_0)->Some_0;
        assert(rule_map_of(rs, m) && generated_omissions(rs, os) && printed(rule_views(m.rules@), os, g));
        assert(generation_of(rs, g));
    }
    Ok(g)
}

/// A generation's output is determined by the template: two generations over the same resources
/// write the same rules file, report the same omissions in the same order with the same warnings,
/// and exit with the same status.
pub proof fn law_generation_is_determined_by_the_template(
    resources: Seq<(String, Value)>,
    g1: Generated,
    g2: Generated,
)
    requires
        generation_of(resources, g1),
        generation_of(resources, g2),
    ensures
        g1.rules@ == g2.rules@,
        g1.status == g2.status,
        omission_views(g1.omissions@) == omission_views(g2.omissions@),
        g1.warnings@.len() == g2.warnings@.len(),
        forall|k: int| 0 <= k < g1.warnings@.len() ==> #[trigger] g1.warnings@[k]@ == g2.warnings@[k]@,
{
    let (m1, os1) = choose|map: RuleMap, os: Seq<OmissionView>|
        {
            &&& #[trigger] rule_map_of(resources, map)
            &&& #[trigger] generated_omissions(resources, os)
            &&& printed(rule_views(map.rules@), os, g1)
        };
    let (m2, os2) = choose|map: RuleMap, os: Seq<OmissionView>|
        {
            &&& #[trigger] rule_map_of(resources, map)
            &&& #[trigger] generated_omissions(resources, os)
            &&& printed(rule_views(map.rules@), os, g2)
        };
    lemma_rule_map_unique(resources, m1, m2);
    let n = resource_omissions(resources).len() as int;
    lemma_property_omissions_unique(resources, os1.skip(n), os2.skip(n));
    assert(os1 =~= os1.take(n) + os1.skip(n));
    assert(os2 =~= os2.take(n) + os2.skip(n));
    assert(os1 == os2);
    let ov1 = omission_views(g1.omissions@);
    let ov2 = omission_views(g2.omissions@);
    assert(ov1 == ov2) by {
        lemma_omissions_sorted_unique(ov1, ov2);
    }
    assert(ov1.len() == g1.omissions@.len());
    assert(ov2.len() == g2.omissions@.len());
    assert forall|k: int| 0 <= k < g1.warnings@.len() implies #[trigger] g1.warnings@[k]@
        == g2.warnings@[k]@ by {
        if k < g1.omissions@.len() {
            assert(ov1[k] == g1.omissions@[k]@);
            assert(ov2[k] == g2.omissions@[k]@);
        }
    }
}

} // verus!
