//! The rule map: for every resource type of a template and every property its resources carry,
//! the values the template holds for it, rendered as guard source; and everything the rules will
//! not describe, with the reason.
use vstd::prelude::*;

use crate::commands::rulegen::{guard_text, value_to_guard, Value};

use crate::sorted::{
    insert_sorted, lemma_increasing_unique, lemma_pair_lt_order, lemma_pair_lt_strict_total,
    lemma_strictly_sorted_unique, pair_less, pair_lt, string_set, strictly_sorted,
};
use crate::text::{decimal, push_str, str_eq, string_of, usize_to_text, views};

verus! {

// ---------------------------------------------------------------------------------------------
// Reading a template
// ---------------------------------------------------------------------------------------------

/// The value under `key` in the entries of a mapping: the first entry with that key.
pub open spec fn field(fields: Seq<(String, Value)>, key: Seq<char>) -> Option<Value>
    decreases fields.len(),
{
    if fields.len() == 0 {
        None
    } else if fields[0].0@ == key {
        Some(fields[0].1)
    } else {
        field(fields.drop_first(), key)
    }
}

/// The entries of `v` when it is a mapping.
pub open spec fn fields_of(v: Value) -> Option<Seq<(String, Value)>> {
    match v {
        Value::Mapping(entries) => Some(entries@),
        _ => None,
    }
}

/// The `Type` of a resource, when it is a string.
pub open spec fn type_of(resource: Value) -> Option<Seq<char>> {
    match fields_of(resource) {
        Some(f) => match field(f, "Type"@) {
            Some(Value::String(t)) => Some(t@),
            _ => None,
        },
        None => None,
    }
}

/// The `Properties` of a resource, when they are a mapping.
pub open spec fn properties_of(resource: Value) -> Option<Seq<(String, Value)>> {
    match fields_of(resource) {
        Some(f) => match field(f, "Properties"@) {
            Some(p) => fields_of(p),
            None => None,
        },
        None => None,
    }
}

/// The properties `resource` contributes to the resources of type `t`: its own when it is one.
pub open spec fn typed_properties(resource: Value, t: Seq<char>) -> Seq<(String, Value)> {
    if type_of(resource) == Some(t) {
        match properties_of(resource) {
            Some(ps) => ps,
            None => Seq::empty(),
        }
    } else {
        Seq::empty()
    }
}

/// The position of the entry `field` finds, if any.
pub fn find_field(fields: &Vec<(String, Value)>, key: &str) -> (r: Option<usize>)
    ensures
        match r {
            Some(k) => k < fields@.len() && field(fields@, key@) == Some(fields@[k as int].1),
            None => field(fields@, key@) is None,
        },
{
    let mut i: usize = 0;
    assert(fields@.skip(0) =~= fields@);
    while i < fields.len()
        invariant
            i <= fields.len(),
            field(fields@, key@) == field(fields@.skip(i as int), key@),
        decreases fields.len() - i,
    {
        let ghost rest = fields@.skip(i as int);
        assert(rest[0] == fields@[i as int]);
        if str_eq(fields[i].0.as_str(), key) {
            return Some(i);
        }
        assert(rest.drop_first() =~= fields@.skip(i + 1));
        i += 1;
    }
    None
}

// ---------------------------------------------------------------------------------------------
// What the template holds, per resource type and property
// ---------------------------------------------------------------------------------------------

/// How many resources of `resources` have the type `t`.
pub open spec fn declared(resources: Seq<(String, Value)>, t: Seq<char>) -> nat
    decreases resources.len(),
{
    if resources.len() == 0 {
        0
    } else {
        declared(resources.drop_last(), t) + if type_of(resources.last().1) == Some(t) {
            1nat
        } else {
            0nat
        }
    }
}

/// How many entries of `ps` are named `p`.
pub open spec fn occurrences(ps: Seq<(String, Value)>, p: Seq<char>) -> nat
    decreases ps.len(),
{
    if ps.len() == 0 {
        0
    } else {
        occurrences(ps.drop_last(), p) + if ps.last().0@ == p {
            1nat
        } else {
            0nat
        }
    }
}

/// The guard text of the entries of `ps` named `p`, for those that have one.
pub open spec fn rendered_values(ps: Seq<(String, Value)>, p: Seq<char>) -> Set<Seq<char>>
    decreases ps.len(),
{
    if ps.len() == 0 {
        Set::empty()
    } else {
        let rest = rendered_values(ps.drop_last(), p);
        if ps.last().0@ == p && guard_text(ps.last().1) is Ok {
            rest.insert(guard_text(ps.last().1)->Ok_0)
        } else {
            rest
        }
    }
}

/// Why the last entry of `ps` named `p` that has no guard text has none.
pub open spec fn render_error(ps: Seq<(String, Value)>, p: Seq<char>) -> Option<Seq<char>>
    decreases ps.len(),
{
    if ps.len() == 0 {
        None
    } else if ps.last().0@ == p && guard_text(ps.last().1) is Err {
        Some(guard_text(ps.last().1)->Err_0)
    } else {
        render_error(ps.drop_last(), p)
    }
}

/// How many times the resources of type `t` carry the property `p`.
pub open spec fn carried(resources: Seq<(String, Value)>, t: Seq<char>, p: Seq<char>) -> nat
    decreases resources.len(),
{
    if resources.len() == 0 {
        0
    } else {
        carried(resources.drop_last(), t, p) + occurrences(
            typed_properties(resources.last().1, t),
            p,
        )
    }
}

/// The guard text of every value the resources of type `t` hold for `p`.
pub open spec fn value_set(resources: Seq<(String, Value)>, t: Seq<char>, p: Seq<char>) -> Set<
    Seq<char>,
>
    decreases resources.len(),
{
    if resources.len() == 0 {
        Set::empty()
    } else {
        value_set(resources.drop_last(), t, p).union(
            rendered_values(typed_properties(resources.last().1, t), p),
        )
    }
}

/// Why the last value of `p` on a resource of type `t` that has no guard text has none.
pub open spec fn last_error(resources: Seq<(String, Value)>, t: Seq<char>, p: Seq<char>) -> Option<
    Seq<char>,
>
    decreases resources.len(),
{
    if resources.len() == 0 {
        None
    } else {
        match render_error(typed_properties(resources.last().1, t), p) {
            Some(e) => Some(e),
            None => last_error(resources.drop_last(), t, p),
        }
    }
}

/// The property `p` of type `t` gets a clause: every resource of the type carries it and every
/// value it has can be written.
pub open spec fn kept(resources: Seq<(String, Value)>, t: Seq<char>, p: Seq<char>) -> bool {
    &&& carried(resources, t, p) > 0
    &&& carried(resources, t, p) >= declared(resources, t)
    &&& last_error(resources, t, p) is None
}

/// Why the property `p` of type `t` gets no clause.
pub open spec fn omission_reason(resources: Seq<(String, Value)>, t: Seq<char>, p: Seq<char>) -> Seq<
    char,
> {
    match last_error(resources, t, p) {
        Some(e) => e,
        None => "only "@ + decimal(carried(resources, t, p)) + " of the "@ + decimal(
            declared(resources, t),
        ) + " resources of this type carry it, and a clause over the type is evaluated against all of them"@,
    }
}

/// How many property entries the typed resources of `resources` have in all.
pub open spec fn total_entries(resources: Seq<(String, Value)>) -> nat
    decreases resources.len(),
{
    if resources.len() == 0 {
        0
    } else {
        total_entries(resources.drop_last()) + match type_of(resources.last().1) {
            Some(t) => typed_properties(resources.last().1, t).len(),
            None => 0,
        }
    }
}

// ---------------------------------------------------------------------------------------------
// Omissions
// ---------------------------------------------------------------------------------------------

/// Something the generated rules do not describe, and why not.
pub enum Omission {
    /// A resource that belongs to no rule, because it has no usable `Type`.
    Resource { name: String, reason: String },
    /// A property of a resource type that gets no clause.
    Property { resource_type: String, name: String, reason: String },
}

/// What an [`Omission`] says.
pub enum OmissionView {
    Resource { name: Seq<char>, reason: Seq<char> },
    Property { resource_type: Seq<char>, name: Seq<char>, reason: Seq<char> },
}

impl View for Omission {
    type V = OmissionView;

    open spec fn view(&self) -> OmissionView {
        match self {
            Omission::Resource { name, reason } => OmissionView::Resource {
                name: name@,
                reason: reason@,
            },
            Omission::Property { resource_type, name, reason } => OmissionView::Property {
                resource_type: resource_type@,
                name: name@,
                reason: reason@,
            },
        }
    }
}

/// The resource type and property name of a property omission.
pub open spec fn omission_key(o: OmissionView) -> (Seq<char>, Seq<char>) {
    (o->resource_type, o->Property_name)
}

/// The views of a sequence of omissions.
pub open spec fn omission_views(s: Seq<Omission>) -> Seq<OmissionView> {
    s.map_values(|o: Omission| o@)
}

/// Why a resource with properties and no usable `Type` gets no rule, given its entries.
pub open spec fn untyped_reason(fields: Seq<(String, Value)>) -> Seq<char> {
    match field(fields, "Type"@) {
        None => "it has no Type, and a generated rule is keyed on the resource type"@,
        Some(v) => match guard_text(v) {
            Ok(s) => "its Type is "@ + s
                + " rather than a string, and a generated rule is keyed on the resource type"@,
            Err(_) => "its Type is not a string, and a generated rule is keyed on the resource type"@,
        },
    }
}

/// The omission for the resource `name`, when it has properties and no usable `Type`.
pub open spec fn resource_omission(name: Seq<char>, resource: Value) -> Option<OmissionView> {
    match fields_of(resource) {
        Some(f) => if type_of(resource) is None && properties_of(resource) is Some {
            Some(OmissionView::Resource { name, reason: untyped_reason(f) })
        } else {
            None
        },
        None => None,
    }
}

/// The omissions for the resources of `resources` that have properties and no usable `Type`, in
/// order.
pub open spec fn resource_omissions(resources: Seq<(String, Value)>) -> Seq<OmissionView>
    decreases resources.len(),
{
    if resources.len() == 0 {
        Seq::empty()
    } else {
        resource_omissions(resources.drop_last()) + match resource_omission(
            resources.last().0@,
            resources.last().1,
        ) {
            Some(o) => seq![o],
            None => Seq::empty(),
        }
    }
}

// ---------------------------------------------------------------------------------------------
// Tallies: what has been seen so far, per resource type and property
// ---------------------------------------------------------------------------------------------

/// `carried` over `resources`, plus the entries `qs` of a resource of type `t0` partly read.
pub open spec fn partial_carried(
    resources: Seq<(String, Value)>,
    t0: Seq<char>,
    qs: Seq<(String, Value)>,
    t: Seq<char>,
    p: Seq<char>,
) -> nat {
    carried(resources, t, p) + if t == t0 {
        occurrences(qs, p)
    } else {
        0
    }
}

/// `value_set` over `resources`, plus the entries `qs` of a resource of type `t0` partly read.
pub open spec fn partial_values(
    resources: Seq<(String, Value)>,
    t0: Seq<char>,
    qs: Seq<(String, Value)>,
    t: Seq<char>,
    p: Seq<char>,
) -> Set<Seq<char>> {
    if t == t0 {
        value_set(resources, t, p).union(rendered_values(qs, p))
    } else {
        value_set(resources, t, p)
    }
}

/// `last_error` over `resources`, plus the entries `qs` of a resource of type `t0` partly read.
pub open spec fn partial_error(
    resources: Seq<(String, Value)>,
    t0: Seq<char>,
    qs: Seq<(String, Value)>,
    t: Seq<char>,
    p: Seq<char>,
) -> Option<Seq<char>> {
    if t == t0 && render_error(qs, p) is Some {
        render_error(qs, p)
    } else {
        last_error(resources, t, p)
    }
}

/// What has been seen of one property of one resource type.
struct Tally {
    resource_type: String,
    name: String,
    carried: usize,
    values: Vec<String>,
    error: Option<String>,
}

spec fn tally_key(t: Tally) -> (Seq<char>, Seq<char>) {
    (t.resource_type@, t.name@)
}

/// The view of an optional string.
pub open spec fn opt_view(o: Option<String>) -> Option<Seq<char>> {
    match o {
        Some(s) => Some(s@),
        None => None,
    }
}

spec fn tally_matches(
    tly: Tally,
    resources: Seq<(String, Value)>,
    t0: Seq<char>,
    qs: Seq<(String, Value)>,
) -> bool {
    let t = tly.resource_type@;
    let p = tly.name@;
    &&& tly.carried == partial_carried(resources, t0, qs, t, p)
    &&& tly.carried > 0
    &&& string_set(tly.values@) == partial_values(resources, t0, qs, t, p)
    &&& strictly_sorted(views(tly.values@))
    &&& opt_view(tly.error) == partial_error(resources, t0, qs, t, p)
}

spec fn tallies_sorted(s: Seq<Tally>) -> bool {
    forall|a: int, b: int|
        0 <= a < b < s.len() ==> pair_lt(#[trigger] tally_key(s[a]), #[trigger] tally_key(s[b]))
}

spec fn has_key(s: Seq<Tally>, key: (Seq<char>, Seq<char>)) -> bool {
    exists|k: int| 0 <= k < s.len() && #[trigger] tally_key(s[k]) == key
}

/// The position of the tally for `(t, p)`, added with nothing counted when there was none.
fn find_tally(tallies: &mut Vec<Tally>, t: &String, p: &String) -> (k: usize)
    requires
        tallies_sorted(old(tallies)@),
    ensures
        k < final(tallies)@.len(),
        tally_key(final(tallies)@[k as int]) == (t@, p@),
        tallies_sorted(final(tallies)@),
        has_key(old(tallies)@, (t@, p@)) ==> final(tallies)@ == old(tallies)@,
        !has_key(old(tallies)@, (t@, p@)) ==> {
            &&& k <= old(tallies)@.len()
            &&& final(tallies)@ == old(tallies)@.insert(k as int, final(tallies)@[k as int])
            &&& final(tallies)@[k as int].carried == 0
            &&& final(tallies)@[k as int].values@.len() == 0
            &&& final(tallies)@[k as int].error is None
        },
{
    let ghost key = (t@, p@);
    let ghost old_s = tallies@;
    let mut k: usize = 0;
    while k < tallies.len()
        invariant
            k <= tallies.len(),
            key == (t@, p@),
            tallies@ == old_s,
            tallies_sorted(old_s),
            forall|m: int| 0 <= m < k ==> pair_lt(#[trigger] tally_key(old_s[m]), key),
        ensures
            k <= tallies.len(),
            tallies@ == old_s,
            forall|m: int| 0 <= m < k ==> pair_lt(#[trigger] tally_key(old_s[m]), key),
            k < tallies.len() ==> !pair_lt(tally_key(old_s[k as int]), key),
        decreases tallies.len() - k,
    {
        let less = pair_less(
            tallies[k].resource_type.as_str(),
            tallies[k].name.as_str(),
            t.as_str(),
            p.as_str(),
        );
        if !less {
            break;
        }
        k += 1;
    }
    if k < tallies.len() && tallies[k].resource_type == *t && tallies[k].name == *p {
        return k;
    }
    proof {
        if k < old_s.len() {
            lemma_pair_lt_order(tally_key(old_s[k as int]), key, key);
        }
        assert forall|m: int| 0 <= m < old_s.len() implies #[trigger] tally_key(old_s[m]) != key by {
            if m < k {
                lemma_pair_lt_order(key, key, key);
            } else if m > k {
                lemma_pair_lt_order(key, tally_key(old_s[k as int]), tally_key(old_s[m]));
            }
        }
    }
    let fresh = Tally {
        resource_type: t.clone(),
        name: p.clone(),
        carried: 0,
        values: Vec::new(),
        error: None,
    };
    tallies.insert(k, fresh);
    proof {
        let s = tallies@;
        assert forall|a: int, b: int| 0 <= a < b < s.len() implies pair_lt(
            #[trigger] tally_key(s[a]),
            #[trigger] tally_key(s[b]),
        ) by {
            if b < k {
                assert(s[a] == old_s[a] && s[b] == old_s[b]);
            } else if b == k {
                assert(s[a] == old_s[a]);
            } else if a < k {
                assert(s[a] == old_s[a] && s[b] == old_s[b - 1]);
                if b - 1 > k {
                    lemma_pair_lt_order(key, tally_key(old_s[k as int]), tally_key(old_s[b - 1]));
                }
                lemma_pair_lt_order(tally_key(old_s[a]), key, tally_key(old_s[b - 1]));
            } else if a == k {
                assert(s[b] == old_s[b - 1]);
                if b - 1 > k {
                    lemma_pair_lt_order(key, tally_key(old_s[k as int]), tally_key(old_s[b - 1]));
                }
            } else {
                assert(s[a] == old_s[a - 1] && s[b] == old_s[b - 1]);
            }
        }
    }
    k
}

// ---------------------------------------------------------------------------------------------
// Lemmas about the tallies
// ---------------------------------------------------------------------------------------------

/// A property never carried has no values and no error.
proof fn lemma_occurrences_zero(ps: Seq<(String, Value)>, p: Seq<char>)
    requires
        occurrences(ps, p) == 0,
    ensures
        rendered_values(ps, p) == Set::<Seq<char>>::empty(),
        render_error(ps, p) is None,
    decreases ps.len(),
{
    if ps.len() > 0 {
        lemma_occurrences_zero(ps.drop_last(), p);
    }
}

/// A property no resource of the type carries has no values and no error.
proof fn lemma_carried_zero(rs: Seq<(String, Value)>, t: Seq<char>, p: Seq<char>)
    requires
        carried(rs, t, p) == 0,
    ensures
        value_set(rs, t, p) == Set::<Seq<char>>::empty(),
        last_error(rs, t, p) is None,
    decreases rs.len(),
{
    if rs.len() > 0 {
        lemma_carried_zero(rs.drop_last(), t, p);
        lemma_occurrences_zero(typed_properties(rs.last().1, t), p);
        assert(value_set(rs, t, p) =~= Set::<Seq<char>>::empty());
    }
}

/// Reading one more entry `e` of a resource of type `t0` changes the tallies of its own property
/// only.
proof fn lemma_partial_step(
    rs: Seq<(String, Value)>,
    t0: Seq<char>,
    qs: Seq<(String, Value)>,
    e: (String, Value),
    t: Seq<char>,
    p: Seq<char>,
)
    ensures
        (t, p) != (t0, e.0@) ==> {
            &&& partial_carried(rs, t0, qs.push(e), t, p) == partial_carried(rs, t0, qs, t, p)
            &&& partial_values(rs, t0, qs.push(e), t, p) == partial_values(rs, t0, qs, t, p)
            &&& partial_error(rs, t0, qs.push(e), t, p) == partial_error(rs, t0, qs, t, p)
        },
        (t, p) == (t0, e.0@) ==> {
            &&& partial_carried(rs, t0, qs.push(e), t, p) == partial_carried(rs, t0, qs, t, p) + 1
            &&& partial_values(rs, t0, qs.push(e), t, p) == match guard_text(e.1) {
                Ok(text) => partial_values(rs, t0, qs, t, p).insert(text),
                Err(_) => partial_values(rs, t0, qs, t, p),
            }
            &&& partial_error(rs, t0, qs.push(e), t, p) == match guard_text(e.1) {
                Ok(_) => partial_error(rs, t0, qs, t, p),
                Err(reason) => Some(reason),
            }
        },
{
    let qs2 = qs.push(e);
    assert(qs2.drop_last() =~= qs);
    assert(qs2.last() == e);
    if t == t0 && p == e.0@ {
        match guard_text(e.1) {
            Ok(text) => {
                assert(partial_values(rs, t0, qs2, t, p) =~= partial_values(rs, t0, qs, t, p).insert(
                    text,
                ));
            },
            Err(_) => {},
        }
    }
}

/// With nothing of the current resource read, the tallies are the ones over the resources before
/// it.
proof fn lemma_partial_empty(
    rs: Seq<(String, Value)>,
    t0: Seq<char>,
    t: Seq<char>,
    p: Seq<char>,
)
    ensures
        partial_carried(rs, t0, Seq::empty(), t, p) == carried(rs, t, p),
        partial_values(rs, t0, Seq::empty(), t, p) == value_set(rs, t, p),
        partial_error(rs, t0, Seq::empty(), t, p) == last_error(rs, t, p),
{
    assert(value_set(rs, t, p).union(Set::empty()) =~= value_set(rs, t, p));
}

/// Having read every entry of resource `i`, the tallies are the ones over the resources up to and
/// including it.
proof fn lemma_resource_step(rs: Seq<(String, Value)>, i: int, t0: Seq<char>, t: Seq<char>, p: Seq<char>)
    requires
        0 <= i < rs.len(),
    ensures
        type_of(rs[i].1) == Some(t0) && properties_of(rs[i].1) is Some ==> {
            let ps = properties_of(rs[i].1)->Some_0;
            &&& carried(rs.take(i + 1), t, p) == partial_carried(rs.take(i), t0, ps, t, p)
            &&& value_set(rs.take(i + 1), t, p) == partial_values(rs.take(i), t0, ps, t, p)
            &&& last_error(rs.take(i + 1), t, p) == partial_error(rs.take(i), t0, ps, t, p)
        },
        !(type_of(rs[i].1) is Some && properties_of(rs[i].1) is Some) ==> {
            &&& carried(rs.take(i + 1), t, p) == carried(rs.take(i), t, p)
            &&& value_set(rs.take(i + 1), t, p) == value_set(rs.take(i), t, p)
            &&& last_error(rs.take(i + 1), t, p) == last_error(rs.take(i), t, p)
        },
{
    let next = rs.take(i + 1);
    assert(next.drop_last() =~= rs.take(i));
    assert(next.last() == rs[i]);
    if type_of(rs[i].1) == Some(t0) && properties_of(rs[i].1) is Some {
        if t != t0 {
            assert(value_set(next, t, p) =~= value_set(rs.take(i), t, p));
        }
    } else if !(type_of(rs[i].1) is Some && properties_of(rs[i].1) is Some) {
        assert(typed_properties(rs[i].1, t) =~= Seq::<(String, Value)>::empty());
        assert(value_set(next, t, p) =~= value_set(rs.take(i), t, p));
    }
}

/// Every property entry of a resource of type `t0` counts toward the total.
proof fn lemma_occurrences_le(ps: Seq<(String, Value)>, p: Seq<char>)
    ensures
        occurrences(ps, p) <= ps.len(),
    decreases ps.len(),
{
    if ps.len() > 0 {
        lemma_occurrences_le(ps.drop_last(), p);
    }
}

/// No property is carried more often than there are property entries.
proof fn lemma_carried_le_total(rs: Seq<(String, Value)>, t: Seq<char>, p: Seq<char>)
    ensures
        carried(rs, t, p) <= total_entries(rs),
    decreases rs.len(),
{
    if rs.len() > 0 {
        lemma_carried_le_total(rs.drop_last(), t, p);
        lemma_occurrences_le(typed_properties(rs.last().1, t), p);
    }
}

/// The property entries of a prefix are no more than those of the whole.
proof fn lemma_total_prefix(rs: Seq<(String, Value)>, i: int)
    requires
        0 <= i <= rs.len(),
    ensures
        total_entries(rs.take(i)) <= total_entries(rs),
    decreases rs.len() - i,
{
    if i < rs.len() {
        lemma_total_prefix(rs, i + 1);
        assert(rs.take(i + 1).drop_last() =~= rs.take(i));
    } else {
        assert(rs.take(i) =~= rs);
    }
}

// ---------------------------------------------------------------------------------------------
// Counting
// ---------------------------------------------------------------------------------------------

/// The tallies are sorted, each matches what the resources read so far say of its property, and
/// every property carried so far has one.
spec fn tallies_hold(
    s: Seq<Tally>,
    rs: Seq<(String, Value)>,
    t0: Seq<char>,
    qs: Seq<(String, Value)>,
) -> bool {
    &&& tallies_sorted(s)
    &&& forall|k: int| 0 <= k < s.len() ==> tally_matches(#[trigger] s[k], rs, t0, qs)
    &&& forall|t: Seq<char>, p: Seq<char>|
        #[trigger] partial_carried(rs, t0, qs, t, p) > 0 ==> has_key(s, (t, p))
}

/// Reads every property entry of one resource of type `t0` into the tallies.
fn tally_resource(
    tallies: &mut Vec<Tally>,
    t0: &String,
    ps: &Vec<(String, Value)>,
    Ghost(rs): Ghost<Seq<(String, Value)>>,
    Ghost(bound): Ghost<nat>,
)
    requires
        tallies_hold(old(tallies)@, rs, t0@, Seq::empty()),
        forall|t: Seq<char>, p: Seq<char>| #[trigger] carried(rs, t, p) <= bound,
        bound + ps@.len() < usize::MAX,
    ensures
        tallies_hold(final(tallies)@, rs, t0@, ps@),
{
    let mut j: usize = 0;
    assert(ps@.take(0) =~= Seq::<(String, Value)>::empty());
    while j < ps.len()
        invariant
            j <= ps.len(),
            tallies_hold(tallies@, rs, t0@, ps@.take(j as int)),
            forall|t: Seq<char>, p: Seq<char>| #[trigger] carried(rs, t, p) <= bound,
            bound + ps@.len() < usize::MAX,
        decreases ps.len() - j,
    {
        let ghost qs = ps@.take(j as int);
        let ghost e = ps@[j as int];
        let ghost key = (t0@, e.0@);
        assert(ps@.take(j + 1) =~= qs.push(e));
        let ghost before = tallies@;
        let k = find_tally(tallies, t0, &ps[j].0);
        let ghost mid = tallies@;
        proof {
            if !has_key(before, key) {
                // The property was not carried yet: nothing was counted for it.
                assert(partial_carried(rs, t0@, qs, t0@, e.0@) == 0);
                lemma_carried_zero(rs, t0@, e.0@);
                lemma_occurrences_zero(qs, e.0@);
                assert(partial_values(rs, t0@, qs, t0@, e.0@) =~= Set::<Seq<char>>::empty());
                assert(string_set(mid[k as int].values@) =~= Set::<Seq<char>>::empty());
                assert(views(mid[k as int].values@) =~= Seq::<Seq<char>>::empty());
            } else {
                let w = choose|w: int| 0 <= w < before.len() && #[trigger] tally_key(before[w]) == key;
                if w != k {
                    lemma_pair_lt_order(key, key, key);
                }
                assert(tally_matches(before[k as int], rs, t0@, qs));
            }
            lemma_occurrences_le(qs, e.0@);
            lemma_partial_step(rs, t0@, qs, e, t0@, e.0@);
        }
        let mut tly = tallies.remove(k);
        assert(tly == mid[k as int]);
        tly.carried = tly.carried + 1;
        match value_to_guard(&ps[j].1) {
            Ok(text) => {
                insert_sorted(&mut tly.values, text);
            },
            Err(reason) => {
                tly.error = Some(reason);
            },
        }
        tallies.insert(k, tly);
        let ghost fin = tallies@;
        proof {
            let qs2 = ps@.take(j + 1);
            assert(fin =~= mid.update(k as int, tly));
            if !has_key(before, key) {
                before.insert_ensures(k as int, mid[k as int]);
            }
            assert(tally_matches(fin[k as int], rs, t0@, qs2));
            assert forall|m: int| 0 <= m < fin.len() implies tally_matches(
                #[trigger] fin[m],
                rs,
                t0@,
                qs2,
            ) by {
                if m != k {
                    let old_index = if !has_key(before, key) && m > k {
                        m - 1
                    } else {
                        m
                    };
                    assert(fin[m] == before[old_index]);
                    assert(tally_matches(before[old_index], rs, t0@, qs));
                    if tally_key(fin[m]) == key {
                        if m < k {
                            lemma_pair_lt_order(key, key, key);
                        } else {
                            lemma_pair_lt_order(key, key, key);
                        }
                    }
                    lemma_partial_step(rs, t0@, qs, e, tally_key(fin[m]).0, tally_key(fin[m]).1);
                }
            }
            assert forall|a: int, b: int| 0 <= a < b < fin.len() implies pair_lt(
                #[trigger] tally_key(fin[a]),
                #[trigger] tally_key(fin[b]),
            ) by {
                assert(tally_key(fin[a]) == tally_key(mid[a]));
                assert(tally_key(fin[b]) == tally_key(mid[b]));
            }
            assert forall|t: Seq<char>, p: Seq<char>| #[trigger]
                partial_carried(rs, t0@, qs2, t, p) > 0 implies has_key(fin, (t, p)) by {
                lemma_partial_step(rs, t0@, qs, e, t, p);
                if (t, p) == key {
                    assert(tally_key(fin[k as int]) == (t, p));
                } else {
                    assert(partial_carried(rs, t0@, qs, t, p) > 0);
                    let w = choose|w: int| 0 <= w < before.len() && #[trigger] tally_key(before[w]) == (t, p);
                    if !has_key(before, key) && w >= k {
                        assert(tally_key(fin[w + 1]) == (t, p));
                    } else {
                        assert(tally_key(fin[w]) == (t, p));
                    }
                }
            }
        }
        j += 1;
    }
    assert(ps@.take(j as int) =~= ps@);
}

// ---------------------------------------------------------------------------------------------
// The rule map
// ---------------------------------------------------------------------------------------------

/// The values of one property of one resource type, rendered as guard source.
pub struct PropertyRule {
    pub resource_type: String,
    pub name: String,
    /// Strictly sorted.
    pub values: Vec<String>,
}

/// Resource type and property name to the values the template holds for that property across
/// every resource of that type, ordered by type and then by property name.
pub struct RuleMap {
    pub rules: Vec<PropertyRule>,
}

/// What a [`PropertyRule`] holds: its type, its name and its values.
pub struct PropertyRuleView {
    pub resource_type: Seq<char>,
    pub name: Seq<char>,
    pub values: Seq<Seq<char>>,
}

impl View for PropertyRule {
    type V = PropertyRuleView;

    open spec fn view(&self) -> PropertyRuleView {
        PropertyRuleView {
            resource_type: self.resource_type@,
            name: self.name@,
            values: views(self.values@),
        }
    }
}

/// The views of a sequence of property rules.
pub open spec fn rule_views(s: Seq<PropertyRule>) -> Seq<PropertyRuleView> {
    s.map_values(|r: PropertyRule| r@)
}

/// The resource type and property name of `r`.
pub open spec fn rule_key(r: PropertyRule) -> (Seq<char>, Seq<char>) {
    (r.resource_type@, r.name@)
}

impl RuleMap {
    /// Sorted by type and name with no key twice, each with a strictly sorted set of values.
    pub open spec fn wf(&self) -> bool {
        &&& forall|a: int, b: int|
            0 <= a < b < self.rules@.len() ==> pair_lt(
                #[trigger] rule_key(self.rules@[a]),
                #[trigger] rule_key(self.rules@[b]),
            )
        &&& forall|k: int|
            0 <= k < self.rules@.len() ==> strictly_sorted(views(#[trigger] self.rules@[k].values@))
    }

    /// The map has an entry for property `p` of type `t`.
    pub open spec fn has(&self, t: Seq<char>, p: Seq<char>) -> bool {
        exists|k: int| 0 <= k < self.rules@.len() && #[trigger] rule_key(self.rules@[k]) == (t, p)
    }

    /// The resource types the map has entries for.
    pub open spec fn type_set(&self) -> Set<Seq<char>> {
        Set::new(|t: Seq<char>| exists|k: int| 0 <= k < self.rules@.len() && #[trigger] self.rules@[k].resource_type@ == t)
    }

    /// The property names the map has entries for under type `t`.
    pub open spec fn property_set(&self, t: Seq<char>) -> Set<Seq<char>> {
        Set::new(|p: Seq<char>| self.has(t, p))
    }

    /// The resource types the map has entries for, each once, in sorted order.
    pub fn resource_types(&self) -> (r: Vec<String>)
        ensures
            strictly_sorted(views(r@)),
            string_set(r@) == self.type_set(),
    {
        let mut r: Vec<String> = Vec::new();
        let mut k: usize = 0;
        while k < self.rules.len()
            invariant
                k <= self.rules@.len(),
                strictly_sorted(views(r@)),
                string_set(r@) == Set::new(
                    |t: Seq<char>| exists|m: int| 0 <= m < k && #[trigger] self.rules@[m].resource_type@ == t,
                ),
            decreases self.rules.len() - k,
        {
            let ghost before = string_set(r@);
            insert_sorted(&mut r, self.rules[k].resource_type.clone());
            assert(string_set(r@) =~= Set::new(
                |t: Seq<char>| exists|m: int| 0 <= m < k + 1 && #[trigger] self.rules@[m].resource_type@ == t,
            )) by {
                assert forall|t: Seq<char>| #[trigger] string_set(r@).contains(t) implies exists|m: int|
                    0 <= m < k + 1 && #[trigger] self.rules@[m].resource_type@ == t by {
                    if !before.contains(t) {
                        assert(self.rules@[k as int].resource_type@ == t);
                    }
                }
            }
            k += 1;
        }
        assert(string_set(r@) =~= self.type_set());
        r
    }

    /// The property names the map has entries for under type `t`, each once, in sorted order.
    pub fn property_names(&self, t: &str) -> (r: Vec<String>)
        ensures
            strictly_sorted(views(r@)),
            string_set(r@) == self.property_set(t@),
    {
        let mut r: Vec<String> = Vec::new();
        let mut k: usize = 0;
        while k < self.rules.len()
            invariant
                k <= self.rules@.len(),
                strictly_sorted(views(r@)),
                string_set(r@) == Set::new(
                    |p: Seq<char>| exists|m: int| 0 <= m < k && #[trigger] rule_key(self.rules@[m]) == (t@, p),
                ),
            decreases self.rules.len() - k,
        {
            let ghost before = string_set(r@);
            if str_eq(self.rules[k].resource_type.as_str(), t) {
                insert_sorted(&mut r, self.rules[k].name.clone());
            }
            assert(string_set(r@) =~= Set::new(
                |p: Seq<char>| exists|m: int| 0 <= m < k + 1 && #[trigger] rule_key(self.rules@[m]) == (t@, p),
            )) by {
                assert forall|p: Seq<char>| #[trigger] string_set(r@).contains(p) implies exists|m: int|
                    0 <= m < k + 1 && #[trigger] rule_key(self.rules@[m]) == (t@, p) by {
                    if !before.contains(p) {
                        assert(rule_key(self.rules@[k as int]) == (t@, p));
                    }
                }
                assert forall|p: Seq<char>| (exists|m: int|
                    0 <= m < k + 1 && #[trigger] rule_key(self.rules@[m]) == (t@, p)) implies #[trigger] string_set(r@).contains(p) by {
                    let m = choose|m: int| 0 <= m < k + 1 && #[trigger] rule_key(self.rules@[m]) == (t@, p);
                    if m < k {
                        assert(before.contains(p));
                    }
                }
            }
            k += 1;
        }
        assert(string_set(r@) =~= self.property_set(t@));
        r
    }
}

/// The template's property omissions are sorted by type and name, and are those of the
/// properties that are carried and not kept, each with its reason.
pub open spec fn property_omissions_of(
    resources: Seq<(String, Value)>,
    omissions: Seq<OmissionView>,
) -> bool {
    &&& forall|k: int|
        0 <= k < omissions.len() ==> {
            let o = #[trigger] omissions[k];
            &&& o is Property
            &&& carried(resources, o->resource_type, o->Property_name) > 0
            &&& !kept(resources, o->resource_type, o->Property_name)
            &&& o->Property_reason == omission_reason(resources, o->resource_type, o->Property_name)
        }
    &&& forall|a: int, b: int|
        0 <= a < b < omissions.len() ==> pair_lt(
            #[trigger] omission_key(omissions[a]),
            #[trigger] omission_key(omissions[b]),
        )
    &&& forall|t: Seq<char>, p: Seq<char>|
        #[trigger] carried(resources, t, p) > 0 && !kept(resources, t, p) ==> exists|k: int|
            0 <= k < omissions.len() && #[trigger] omission_key(omissions[k]) == (t, p)
}

/// The rule map holds exactly the kept properties of the template, with all their values.
pub open spec fn rule_map_of(resources: Seq<(String, Value)>, map: RuleMap) -> bool {
    &&& map.wf()
    &&& forall|k: int|
        0 <= k < map.rules@.len() ==> {
            let r = #[trigger] map.rules@[k];
            &&& kept(resources, r.resource_type@, r.name@)
            &&& string_set(r.values@) == value_set(resources, r.resource_type@, r.name@)
        }
    &&& forall|t: Seq<char>, p: Seq<char>| #[trigger] kept(resources, t, p) ==> map.has(t, p)
}

/// An entry named `p` that can be written is among the rendered values for `p`.
proof fn lemma_rendered_values_contains(ps: Seq<(String, Value)>, p: Seq<char>, j: int)
    requires
        0 <= j < ps.len(),
        ps[j].0@ == p,
        guard_text(ps[j].1) is Ok,
    ensures
        rendered_values(ps, p).contains(guard_text(ps[j].1)->Ok_0),
    decreases ps.len(),
{
    if j < ps.len() - 1 {
        lemma_rendered_values_contains(ps.drop_last(), p, j);
        assert(ps.drop_last()[j] == ps[j]);
    }
}

/// Where no entry named `p` fails to render, every entry named `p` renders.
proof fn lemma_no_render_error(ps: Seq<(String, Value)>, p: Seq<char>, j: int)
    requires
        0 <= j < ps.len(),
        ps[j].0@ == p,
        render_error(ps, p) is None,
    ensures
        guard_text(ps[j].1) is Ok,
    decreases ps.len(),
{
    if j < ps.len() - 1 {
        lemma_no_render_error(ps.drop_last(), p, j);
        assert(ps.drop_last()[j] == ps[j]);
    }
}

/// The values of one resource are among the values of its type.
proof fn lemma_value_set_contains(resources: Seq<(String, Value)>, t: Seq<char>, p: Seq<char>, i: int)
    requires
        0 <= i < resources.len(),
    ensures
        rendered_values(typed_properties(resources[i].1, t), p).subset_of(value_set(resources, t, p)),
    decreases resources.len(),
{
    if i < resources.len() - 1 {
        lemma_value_set_contains(resources.drop_last(), t, p, i);
        assert(resources.drop_last()[i] == resources[i]);
    }
}

/// Where no value of `p` on a resource of type `t` fails to render, none on any one resource does.
proof fn lemma_no_last_error(resources: Seq<(String, Value)>, t: Seq<char>, p: Seq<char>, i: int)
    requires
        0 <= i < resources.len(),
        last_error(resources, t, p) is None,
    ensures
        render_error(typed_properties(resources[i].1, t), p) is None,
    decreases resources.len(),
{
    if i < resources.len() - 1 {
        lemma_no_last_error(resources.drop_last(), t, p, i);
        assert(resources.drop_last()[i] == resources[i]);
    }
}

/// The rule generated for a property lists what every resource of the type holds for it: each
/// value a resource of the type holds for a property the map has a rule for can be written, and its
/// guard text is among the rule's values. So no resource the template holds is left out of the
/// values its clause compares against.
pub proof fn law_every_value_of_a_kept_property_is_listed(
    resources: Seq<(String, Value)>,
    map: RuleMap,
    i: int,
    j: int,
    k: int,
)
    requires
        rule_map_of(resources, map),
        0 <= i < resources.len(),
        type_of(resources[i].1) is Some,
        properties_of(resources[i].1) is Some,
        0 <= j < properties_of(resources[i].1)->Some_0.len(),
        0 <= k < map.rules@.len(),
        rule_key(map.rules@[k]) == (
            type_of(resources[i].1)->Some_0,
            properties_of(resources[i].1)->Some_0[j].0@,
        ),
    ensures
        guard_text(properties_of(resources[i].1)->Some_0[j].1) is Ok,
        string_set(map.rules@[k].values@).contains(
            guard_text(properties_of(resources[i].1)->Some_0[j].1)->Ok_0,
        ),
{
    let t = type_of(resources[i].1)->Some_0;
    let ps = properties_of(resources[i].1)->Some_0;
    let p = ps[j].0@;
    assert(typed_properties(resources[i].1, t) == ps);
    let r = map.rules@[k];
    assert(kept(resources, r.resource_type@, r.name@));
    lemma_no_last_error(resources, t, p, i);
    lemma_no_render_error(ps, p, j);
    lemma_rendered_values_contains(ps, p, j);
    lemma_value_set_contains(resources, t, p, i);
}

/// The rule map of a template is determined by it: any two rule maps of the same resources hold
/// the same rules, in the same order, with the same values.
pub proof fn lemma_rule_map_unique(resources: Seq<(String, Value)>, m1: RuleMap, m2: RuleMap)
    requires
        rule_map_of(resources, m1),
        rule_map_of(resources, m2),
    ensures
        rule_views(m1.rules@) == rule_views(m2.rules@),
{
    let k1 = m1.rules@.map_values(|r: PropertyRule| rule_key(r));
    let k2 = m2.rules@.map_values(|r: PropertyRule| rule_key(r));
    let lt = |x: (Seq<char>, Seq<char>), y: (Seq<char>, Seq<char>)| pair_lt(x, y);
    lemma_pair_lt_strict_total();
    assert forall|i: int, j: int| 0 <= i < j < k1.len() implies lt(#[trigger] k1[i], #[trigger] k1[j]) by {
        assert(pair_lt(rule_key(m1.rules@[i]), rule_key(m1.rules@[j])));
    }
    assert forall|i: int, j: int| 0 <= i < j < k2.len() implies lt(#[trigger] k2[i], #[trigger] k2[j]) by {
        assert(pair_lt(rule_key(m2.rules@[i]), rule_key(m2.rules@[j])));
    }
    assert forall|x: (Seq<char>, Seq<char>)| k1.to_set().contains(x) <==> k2.to_set().contains(x) by {
        if k1.contains(x) {
            let i = choose|i: int| 0 <= i < k1.len() && k1[i] == x;
            let r = m1.rules@[i];
            assert(kept(resources, r.resource_type@, r.name@));
            assert(m2.has(x.0, x.1));
            let k = choose|k: int| 0 <= k < m2.rules@.len() && #[trigger] rule_key(m2.rules@[k]) == (x.0, x.1);
            assert(k2[k] == x);
        }
        if k2.contains(x) {
            let i = choose|i: int| 0 <= i < k2.len() && k2[i] == x;
            let r = m2.rules@[i];
            assert(kept(resources, r.resource_type@, r.name@));
            assert(m1.has(x.0, x.1));
            let k = choose|k: int| 0 <= k < m1.rules@.len() && #[trigger] rule_key(m1.rules@[k]) == (x.0, x.1);
            assert(k1[k] == x);
        }
    }
    assert(k1.to_set() =~= k2.to_set());
    lemma_increasing_unique(k1, k2, lt);
    assert forall|i: int| 0 <= i < m1.rules@.len() implies #[trigger] rule_views(m1.rules@)[i]
        == rule_views(m2.rules@)[i] by {
        let r1 = m1.rules@[i];
        let r2 = m2.rules@[i];
        assert(k1[i] == k2[i]);
        assert(rule_key(r1) == rule_key(r2));
        assert(string_set(r1.values@) == value_set(resources, r1.resource_type@, r1.name@));
        assert(string_set(r2.values@) == value_set(resources, r2.resource_type@, r2.name@));
        assert(strictly_sorted(views(r1.values@)));
        assert(strictly_sorted(views(r2.values@)));
        lemma_strictly_sorted_unique(views(r1.values@), views(r2.values@));
    }
    assert(k1.len() == k2.len());
    assert(rule_views(m1.rules@) =~= rule_views(m2.rules@));
}

/// The property omissions of a template are determined by it.
pub proof fn lemma_property_omissions_unique(
    resources: Seq<(String, Value)>,
    s1: Seq<OmissionView>,
    s2: Seq<OmissionView>,
)
    requires
        property_omissions_of(resources, s1),
        property_omissions_of(resources, s2),
    ensures
        s1 == s2,
{
    let k1 = s1.map_values(|o: OmissionView| omission_key(o));
    let k2 = s2.map_values(|o: OmissionView| omission_key(o));
    let lt = |x: (Seq<char>, Seq<char>), y: (Seq<char>, Seq<char>)| pair_lt(x, y);
    lemma_pair_lt_strict_total();
    assert forall|i: int, j: int| 0 <= i < j < k1.len() implies lt(#[trigger] k1[i], #[trigger] k1[j]) by {
        assert(pair_lt(omission_key(s1[i]), omission_key(s1[j])));
    }
    assert forall|i: int, j: int| 0 <= i < j < k2.len() implies lt(#[trigger] k2[i], #[trigger] k2[j]) by {
        assert(pair_lt(omission_key(s2[i]), omission_key(s2[j])));
    }
    assert forall|x: (Seq<char>, Seq<char>)| k1.to_set().contains(x) <==> k2.to_set().contains(x) by {
        if k1.contains(x) {
            let i = choose|i: int| 0 <= i < k1.len() && k1[i] == x;
            let o = s1[i];
            assert(carried(resources, o->resource_type, o->Property_name) > 0);
            assert(!kept(resources, o->resource_type, o->Property_name));
            let k = choose|k: int| 0 <= k < s2.len() && #[trigger] omission_key(s2[k]) == (x.0, x.1);
            assert(k2[k] == x);
        }
        if k2.contains(x) {
            let i = choose|i: int| 0 <= i < k2.len() && k2[i] == x;
            let o = s2[i];
            assert(carried(resources, o->resource_type, o->Property_name) > 0);
            assert(!kept(resources, o->resource_type, o->Property_name));
            let k = choose|k: int| 0 <= k < s1.len() && #[trigger] omission_key(s1[k]) == (x.0, x.1);
            assert(k1[k] == x);
        }
    }
    assert(k1.to_set() =~= k2.to_set());
    lemma_increasing_unique(k1, k2, lt);
    assert forall|i: int| 0 <= i < s1.len() implies #[trigger] s1[i] == s2[i] by {
        assert(k1[i] == k2[i]);
        let o1 = s1[i];
        let o2 = s2[i];
        assert(o1 is Property && o2 is Property);
        assert(o1->Property_reason == omission_reason(resources, o1->resource_type, o1->Property_name));
        assert(o2->Property_reason == omission_reason(resources, o2->resource_type, o2->Property_name));
    }
    assert(k1.len() == k2.len());
    assert(s1 =~= s2);
}

/// How many of `resources` have the type `t`.
fn count_declared(resources: &Vec<(String, Value)>, t: &String) -> (n: usize)
    ensures
        n == declared(resources@, t@),
{
    let mut n: usize = 0;
    let mut i: usize = 0;
    assert(resources@.take(0) =~= Seq::<(String, Value)>::empty());
    while i < resources.len()
        invariant
            i <= resources.len(),
            n <= i,
            n == declared(resources@.take(i as int), t@),
        decreases resources.len() - i,
    {
        let ghost r = resources@[i as int].1;
        let mut matches = false;
        if let Value::Mapping(fields) = &resources[i].1 {
            if let Some(k) = find_field(fields, "Type") {
                if let Value::String(name) = &fields[k].1 {
                    matches = *name == *t;
                }
            }
        }
        assert(matches == (type_of(r) == Some(t@)));
        assert(resources@.take(i + 1).drop_last() =~= resources@.take(i as int));
        if matches {
            n += 1;
        }
        i += 1;
    }
    assert(resources@.take(i as int) =~= resources@);
    n
}

/// The sentence for a resource with properties and no usable `Type`.
fn untyped_resource_reason(fields: &Vec<(String, Value)>) -> (r: String)
    ensures
        r@ == untyped_reason(fields@),
{
    match find_field(fields, "Type") {
        None => string_of("it has no Type, and a generated rule is keyed on the resource type"),
        Some(k) => match value_to_guard(&fields[k].1) {
            Ok(rendered) => {
                let mut r = string_of("its Type is ");
                push_str(&mut r, rendered.as_str());
                push_str(
                    &mut r,
                    " rather than a string, and a generated rule is keyed on the resource type",
                );
                r
            },
            Err(_) => string_of(
                "its Type is not a string, and a generated rule is keyed on the resource type",
            ),
        },
    }
}

/// The sentence for a property only some resources of its type carry.
fn partly_carried_reason(carried_count: usize, declared_count: usize) -> (r: String)
    ensures
        r@ == "only "@ + decimal(carried_count as nat) + " of the "@ + decimal(declared_count as nat)
            + " resources of this type carry it, and a clause over the type is evaluated against all of them"@,
{
    let mut r = string_of("only ");
    let c = usize_to_text(carried_count);
    push_str(&mut r, c.as_str());
    push_str(&mut r, " of the ");
    let d = usize_to_text(declared_count);
    push_str(&mut r, d.as_str());
    push_str(
        &mut r,
        " resources of this type carry it, and a clause over the type is evaluated against all of them",
    );
    r
}

// ---------------------------------------------------------------------------------------------
// Generation
// ---------------------------------------------------------------------------------------------

spec fn same_at(
    rs1: Seq<(String, Value)>,
    t1: Seq<char>,
    q1: Seq<(String, Value)>,
    rs2: Seq<(String, Value)>,
    t2: Seq<char>,
    q2: Seq<(String, Value)>,
    t: Seq<char>,
    p: Seq<char>,
) -> bool {
    &&& partial_carried(rs1, t1, q1, t, p) == partial_carried(rs2, t2, q2, t, p)
    &&& partial_values(rs1, t1, q1, t, p) == partial_values(rs2, t2, q2, t, p)
    &&& partial_error(rs1, t1, q1, t, p) == partial_error(rs2, t2, q2, t, p)
}

proof fn lemma_tallies_hold_transfer(
    s: Seq<Tally>,
    rs1: Seq<(String, Value)>,
    t1: Seq<char>,
    q1: Seq<(String, Value)>,
    rs2: Seq<(String, Value)>,
    t2: Seq<char>,
    q2: Seq<(String, Value)>,
)
    requires
        tallies_hold(s, rs1, t1, q1),
        forall|t: Seq<char>, p: Seq<char>| #[trigger] same_at(rs1, t1, q1, rs2, t2, q2, t, p),
    ensures
        tallies_hold(s, rs2, t2, q2),
{
    assert forall|k: int| 0 <= k < s.len() implies tally_matches(#[trigger] s[k], rs2, t2, q2) by {
        assert(tally_matches(s[k], rs1, t1, q1));
        assert(same_at(rs1, t1, q1, rs2, t2, q2, tally_key(s[k]).0, tally_key(s[k]).1));
    }
    assert forall|t: Seq<char>, p: Seq<char>| #[trigger]
        partial_carried(rs2, t2, q2, t, p) > 0 implies has_key(s, (t, p)) by {
        assert(same_at(rs1, t1, q1, rs2, t2, q2, t, p));
        assert(partial_carried(rs1, t1, q1, t, p) > 0);
    }
}

/// The rule map of a template's `Resources`, and what the rules will not describe.
///
/// A property gets a clause over its resource type when every resource of that type carries it
/// and each of its values has a guard literal; its values are collapsed across the resources of
/// the type. Otherwise it is an omission, with the reason: the last value that could not be
/// written, or how many of the type's resources carry it. A resource with `Properties` and no
/// string `Type` belongs to no rule and is an omission of its own.
///
/// The omissions come as those for resources, in template order, then those for properties,
/// ordered by type and name.
pub fn gen_rules(resources: &Vec<(String, Value)>) -> (out: (RuleMap, Vec<Omission>))
    requires
        total_entries(resources@) < usize::MAX,
    ensures
        rule_map_of(resources@, out.0),
        omission_views(out.1@).take(resource_omissions(resources@).len() as int)
            == resource_omissions(resources@),
        resource_omissions(resources@).len() <= out.1@.len(),
        property_omissions_of(
            resources@,
            omission_views(out.1@).skip(resource_omissions(resources@).len() as int),
        ),
{
    let ghost rs = resources@;
    let mut tallies: Vec<Tally> = Vec::new();
    let mut omissions: Vec<Omission> = Vec::new();
    let mut i: usize = 0;
    proof {
        assert(rs.take(0) =~= Seq::<(String, Value)>::empty());
        assert forall|t: Seq<char>, p: Seq<char>| #[trigger]
            partial_carried(rs.take(0), Seq::empty(), Seq::empty(), t, p) == 0 by {}
        assert(omission_views(omissions@) =~= Seq::<OmissionView>::empty());
    }
    while i < resources.len()
        invariant
            i <= resources.len(),
            rs == resources@,
            total_entries(rs) < usize::MAX,
            tallies_hold(tallies@, rs.take(i as int), Seq::empty(), Seq::empty()),
            omission_views(omissions@) == resource_omissions(rs.take(i as int)),
        decreases resources.len() - i,
    {
        let ghost ri = rs.take(i as int);
        let ghost next = rs.take(i + 1);
        let ghost r = rs[i as int].1;
        let ghost empty_q = Seq::<(String, Value)>::empty();
        let ghost empty_t = Seq::<char>::empty();
        proof {
            lemma_total_prefix(rs, i + 1);
            assert(next.drop_last() =~= ri);
            assert(next.last() == rs[i as int]);
        }
        let mut contributed = false;
        let ghost mut t0_view = empty_t;
        if let Value::Mapping(fields) = &resources[i].1 {
            let props: Option<&Vec<(String, Value)>> = match find_field(fields, "Properties") {
                Some(k) => match &fields[k].1 {
                    Value::Mapping(ps) => Some(ps),
                    _ => None,
                },
                None => None,
            };
            let declared_type: Option<&String> = match find_field(fields, "Type") {
                Some(k) => match &fields[k].1 {
                    Value::String(t) => Some(t),
                    _ => None,
                },
                None => None,
            };
            assert(props matches Some(ps) ==> properties_of(r) == Some(ps@));
            assert(props is None ==> properties_of(r) is None);
            assert(declared_type matches Some(t) ==> type_of(r) == Some(t@));
            assert(declared_type is None ==> type_of(r) is None);
            match declared_type {
                Some(t0) => {
                    if let Some(ps) = props {
                        proof {
                            t0_view = t0@;
                            assert(typed_properties(r, t0@) == ps@);
                            assert(total_entries(next) == total_entries(ri) + ps@.len());
                            assert forall|t: Seq<char>, p: Seq<char>|
                                #[trigger] carried(ri, t, p) <= total_entries(ri) by {
                                lemma_carried_le_total(ri, t, p);
                            }
                            assert forall|t: Seq<char>, p: Seq<char>| #[trigger]
                                same_at(ri, empty_t, empty_q, ri, t0@, empty_q, t, p) by {
                                lemma_partial_empty(ri, empty_t, t, p);
                                lemma_partial_empty(ri, t0@, t, p);
                            }
                            lemma_tallies_hold_transfer(
                                tallies@,
                                ri,
                                empty_t,
                                empty_q,
                                ri,
                                t0@,
                                empty_q,
                            );
                        }
                        tally_resource(
                            &mut tallies,
                            t0,
                            ps,
                            Ghost(ri),
                            Ghost(total_entries(ri)),
                        );
                        contributed = true;
                    }
                    assert(resource_omission(rs[i as int].0@, r) is None);
                },
                None => {
                    if props.is_some() {
                        let reason = untyped_resource_reason(fields);
                        let o = Omission::Resource { name: resources[i].0.clone(), reason };
                        let ghost before = omission_views(omissions@);
                        omissions.push(o);
                        assert(omission_views(omissions@) =~= before.push(o@));
                        assert(resource_omission(rs[i as int].0@, r) == Some(o@));
                    } else {
                        assert(resource_omission(rs[i as int].0@, r) is None);
                    }
                },
            }
        } else {
            assert(resource_omission(rs[i as int].0@, r) is None);
        }
        proof {
            assert(resource_omissions(next) =~= omission_views(omissions@));
            if contributed {
                assert(type_of(r) == Some(t0_view) && properties_of(r) is Some);
                assert forall|t: Seq<char>, p: Seq<char>| #[trigger]
                    same_at(ri, t0_view, properties_of(r)->Some_0, next, empty_t, empty_q, t, p) by {
                    lemma_resource_step(rs, i as int, t0_view, t, p);
                    lemma_partial_empty(next, empty_t, t, p);
                }
                lemma_tallies_hold_transfer(
                    tallies@,
                    ri,
                    t0_view,
                    properties_of(r)->Some_0,
                    next,
                    empty_t,
                    empty_q,
                );
            } else {
                assert(!(type_of(r) is Some && properties_of(r) is Some));
                assert forall|t: Seq<char>, p: Seq<char>| #[trigger]
                    same_at(ri, empty_t, empty_q, next, empty_t, empty_q, t, p) by {
                    lemma_resource_step(rs, i as int, empty_t, t, p);
                    lemma_partial_empty(next, empty_t, t, p);
                    lemma_partial_empty(ri, empty_t, t, p);
                }
                lemma_tallies_hold_transfer(tallies@, ri, empty_t, empty_q, next, empty_t, empty_q);
            }
        }
        i += 1;
    }
    proof {
        assert(rs.take(i as int) =~= rs);
    }
    let ghost resource_part = omission_views(omissions@);
    let (rules, mut property_omissions) = settle(tallies, resources);
    let ghost property_part = omission_views(property_omissions@);
    omissions.append(&mut property_omissions);
    proof {
        assert(omission_views(omissions@) =~= resource_part + property_part);
        assert(omission_views(omissions@).take(resource_part.len() as int) =~= resource_part);
        assert(omission_views(omissions@).skip(resource_part.len() as int) =~= property_part);
    }
    (RuleMap { rules }, omissions)
}

/// Splits the tallies into the rules for the kept properties and the omissions for the others.
fn settle(tallies: Vec<Tally>, resources: &Vec<(String, Value)>) -> (out: (
    Vec<PropertyRule>,
    Vec<Omission>,
))
    requires
        tallies_hold(tallies@, resources@, Seq::empty(), Seq::empty()),
    ensures
        rule_map_of(resources@, RuleMap { rules: out.0 }),
        property_omissions_of(resources@, omission_views(out.1@)),
{
    let ghost rs = resources@;
    let ghost orig = tallies@;
    let ghost empty_q = Seq::<(String, Value)>::empty();
    let ghost empty_t = Seq::<char>::empty();
    let mut rest = tallies;
    let mut rules: Vec<PropertyRule> = Vec::new();
    let mut omitted: Vec<Omission> = Vec::new();
    let mut k: usize = 0;
    let n = rest.len();
    assert(orig.skip(0) =~= orig);
    while k < n
        invariant
            n == orig.len(),
            k <= n,
            empty_q == Seq::<(String, Value)>::empty(),
            empty_t == Seq::<char>::empty(),
            rs == resources@,
            rest@ == orig.skip(k as int),
            tallies_hold(orig, rs, empty_t, empty_q),
            forall|a: int, b: int|
                0 <= a < b < rules@.len() ==> pair_lt(
                    #[trigger] rule_key(rules@[a]),
                    #[trigger] rule_key(rules@[b]),
                ),
            forall|a: int, m: int|
                0 <= a < rules@.len() && k <= m < n ==> pair_lt(
                    #[trigger] rule_key(rules@[a]),
                    #[trigger] tally_key(orig[m]),
                ),
            forall|a: int|
                0 <= a < rules@.len() ==> {
                    let r = #[trigger] rules@[a];
                    &&& kept(rs, r.resource_type@, r.name@)
                    &&& string_set(r.values@) == value_set(rs, r.resource_type@, r.name@)
                    &&& strictly_sorted(views(r.values@))
                },
            forall|m: int|
                0 <= m < k && kept(rs, tally_key(#[trigger] orig[m]).0, tally_key(orig[m]).1)
                    ==> exists|a: int|
                    0 <= a < rules@.len() && #[trigger] rule_key(rules@[a]) == tally_key(orig[m]),
            forall|a: int, b: int|
                0 <= a < b < omitted@.len() ==> pair_lt(
                    #[trigger] omission_key(omitted@[a]@),
                    #[trigger] omission_key(omitted@[b]@),
                ),
            forall|a: int, m: int|
                0 <= a < omitted@.len() && k <= m < n ==> pair_lt(
                    #[trigger] omission_key(omitted@[a]@),
                    #[trigger] tally_key(orig[m]),
                ),
            forall|a: int|
                0 <= a < omitted@.len() ==> {
                    let o = #[trigger] omitted@[a]@;
                    &&& o is Property
                    &&& carried(rs, o->resource_type, o->Property_name) > 0
                    &&& !kept(rs, o->resource_type, o->Property_name)
                    &&& o->Property_reason == omission_reason(
                        rs,
                        o->resource_type,
                        o->Property_name,
                    )
                },
            forall|m: int|
                0 <= m < k && !kept(rs, tally_key(#[trigger] orig[m]).0, tally_key(orig[m]).1)
                    ==> exists|a: int|
                    0 <= a < omitted@.len() && #[trigger] omission_key(omitted@[a]@) == tally_key(orig[m]),
        decreases n - k,
    {
        let tly = rest.remove(0);
        let ghost key = tally_key(orig[k as int]);
        proof {
            assert(tly == orig[k as int]);
            assert(rest@ =~= orig.skip(k + 1));
            assert(tally_matches(orig[k as int], rs, empty_t, empty_q));
            lemma_partial_empty(rs, empty_t, key.0, key.1);
        }
        let d = count_declared(resources, &tly.resource_type);
        let keep = tly.carried >= d && tly.error.is_none();
        proof {
            assert(tly.carried == carried(rs, key.0, key.1));
            assert(opt_view(tly.error) == last_error(rs, key.0, key.1));
            assert(d == declared(rs, key.0));
            assert(tly.error.is_none() == (opt_view(tly.error) is None));
        }
        assert(keep == kept(rs, key.0, key.1));
        if keep {
            let rule = PropertyRule {
                resource_type: tly.resource_type,
                name: tly.name,
                values: tly.values,
            };
            let ghost old_rules = rules@;
            rules.push(rule);
            proof {
                assert(rules@ == old_rules.push(rule));
                assert(rule_key(rules@[rules@.len() - 1]) == key);
                assert forall|a: int, m: int|
                    0 <= a < rules@.len() && k + 1 <= m < n implies pair_lt(
                    #[trigger] rule_key(rules@[a]),
                    #[trigger] tally_key(orig[m]),
                ) by {
                    assert(pair_lt(tally_key(orig[k as int]), tally_key(orig[m])));
                    if a < rules@.len() - 1 {
                        assert(pair_lt(rule_key(rules@[a]), tally_key(orig[k as int])));
                        lemma_pair_lt_order(
                            rule_key(rules@[a]),
                            tally_key(orig[k as int]),
                            tally_key(orig[m]),
                        );
                    }
                }
                assert forall|m: int|
                    0 <= m < k + 1 && kept(rs, tally_key(#[trigger] orig[m]).0, tally_key(orig[m]).1)
                        implies exists|a: int|
                    0 <= a < rules@.len() && #[trigger] rule_key(rules@[a]) == tally_key(orig[m]) by {
                    if m == k {
                        assert(rule_key(rules@[rules@.len() - 1]) == tally_key(orig[m]));
                    } else {
                        let a = choose|a: int|
                            0 <= a < old_rules.len() && #[trigger] rule_key(old_rules[a])
                                == tally_key(orig[m]);
                        assert(rule_key(rules@[a]) == tally_key(orig[m]));
                    }
                }
            }
        } else {
            let reason = match tly.error {
                Some(e) => e,
                None => partly_carried_reason(tly.carried, d),
            };
            let o = Omission::Property {
                resource_type: tly.resource_type,
                name: tly.name,
                reason,
            };
            let ghost old_omitted = omitted@;
            omitted.push(o);
            proof {
                assert(omitted@ == old_omitted.push(o));
                let last = omitted@.len() - 1;
                assert(omission_key(omitted@[last]@) == key);
                assert forall|a: int, m: int|
                    0 <= a < omitted@.len() && k + 1 <= m < n implies pair_lt(
                    #[trigger] omission_key(omitted@[a]@),
                    #[trigger] tally_key(orig[m]),
                ) by {
                    assert(pair_lt(tally_key(orig[k as int]), tally_key(orig[m])));
                    if a < last {
                        lemma_pair_lt_order(
                            omission_key(omitted@[a]@),
                            tally_key(orig[k as int]),
                            tally_key(orig[m]),
                        );
                    }
                }
                assert forall|m: int|
                    0 <= m < k + 1 && !kept(rs, tally_key(#[trigger] orig[m]).0, tally_key(orig[m]).1)
                        implies exists|a: int|
                    0 <= a < omitted@.len() && #[trigger] omission_key(omitted@[a]@) == tally_key(orig[m]) by {
                    if m == k {
                        assert(omission_key(omitted@[last]@)
                            == tally_key(orig[m]));
                    } else {
                        let a = choose|a: int|
                            0 <= a < old_omitted.len() && #[trigger] omission_key(old_omitted[a]@)
                                == tally_key(orig[m]);
                        assert(omission_key(omitted@[a]@)
                            == tally_key(orig[m]));
                    }
                }
            }
        }
        k += 1;
    }
    proof {
        assert forall|t: Seq<char>, p: Seq<char>| #[trigger] kept(rs, t, p) implies (RuleMap {
            rules: rules,
        }).has(t, p) by {
            lemma_partial_empty(rs, empty_t, t, p);
            assert(partial_carried(rs, empty_t, empty_q, t, p) > 0);
            let m = choose|m: int| 0 <= m < orig.len() && #[trigger] tally_key(orig[m]) == (t, p);
            assert(kept(rs, tally_key(orig[m]).0, tally_key(orig[m]).1));
            let a = choose|a: int|
                0 <= a < rules@.len() && #[trigger] rule_key(rules@[a]) == tally_key(orig[m]);
            assert(rule_key((RuleMap { rules: rules }).rules@[a]) == (t, p));
        }
        let ov = omission_views(omitted@);
        assert forall|t: Seq<char>, p: Seq<char>| #[trigger]
            carried(rs, t, p) > 0 && !kept(rs, t, p) implies exists|a: int|
            0 <= a < ov.len() && #[trigger] omission_key(ov[a]) == (t, p) by {
            lemma_partial_empty(rs, empty_t, t, p);
            assert(partial_carried(rs, empty_t, empty_q, t, p) > 0);
            let m = choose|m: int| 0 <= m < orig.len() && #[trigger] tally_key(orig[m]) == (t, p);
            assert(!kept(rs, tally_key(orig[m]).0, tally_key(orig[m]).1));
            let a = choose|a: int|
                0 <= a < omitted@.len() && #[trigger] omission_key(omitted@[a]@) == tally_key(orig[m]);
            assert(ov[a] == omitted@[a]@);
        }
    }
    (rules, omitted)
}

} // verus!
