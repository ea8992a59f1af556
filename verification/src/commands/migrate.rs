//! Rules written for the first version of the rule language, and the resource types they check.
use vstd::prelude::*;

use crate::commands::rulegen::Value;
use crate::errors::Error;
use crate::sorted::{insert_sorted, string_set, strictly_sorted};
use crate::text::views;

verus! {

/// The `migrate` command: rewrites rules of the first version of the language in the second.
pub struct Migrate {}

impl Migrate {
    /// The command.
    pub fn new() -> (r: Self) {
        Migrate {}
    }
}

/// A resource type a rule is written for, such as `AWS::S3::Bucket`.
#[derive(Debug, PartialEq, Eq)]
pub struct TypeName {
    pub name: String,
}

/// How a property is compared with a value.
#[derive(Debug, PartialEq, Eq, Clone, Copy)]
pub enum CmpOperator {
    Eq,
    NotEq,
    In,
    NotIn,
    Lt,
    Gt,
    Le,
    Ge,
}

/// What a property is compared with: a value, or a variable.
pub enum OldGuardValues {
    Value(Value),
    VariableAccess(String),
}

/// A comparison of the property at `property_path`.
pub struct PropertyComparison {
    pub property_path: String,
    pub operator: CmpOperator,
    pub comparison_value: OldGuardValues,
}

/// A comparison every resource of a type must pass.
pub struct BaseRule {
    pub resource_type: TypeName,
    pub property_comparison: PropertyComparison,
    pub custom_message: Option<String>,
}

/// A comparison the resources of a type must pass when another holds.
pub struct ConditionalRule {
    pub resource_type: TypeName,
    pub when_condition: PropertyComparison,
    pub check_condition: PropertyComparison,
}

/// One alternative of a clause.
pub enum Rule {
    Basic(BaseRule),
    Conditional(ConditionalRule),
}

/// Alternatives, any one of which satisfies the clause.
pub struct Clause {
    pub rules: Vec<Rule>,
}

/// A variable given a value.
pub struct Assignment {
    pub var_name: String,
    pub value: OldGuardValues,
}

/// One line of a rules file.
pub enum RuleLineType {
    Assignment(Assignment),
    Comment(String),
    Clause(Clause),
    EmptyLine,
}

/// The resource type `rule` is written for.
pub open spec fn rule_resource_type(rule: Rule) -> Seq<char> {
    match rule {
        Rule::Basic(b) => b.resource_type.name@,
        Rule::Conditional(c) => c.resource_type.name@,
    }
}

/// The resource type of the `j`th alternative of `line`, when it is a clause that has one.
pub open spec fn clause_type_at(line: RuleLineType, j: int) -> Option<Seq<char>> {
    match line {
        RuleLineType::Clause(c) => if 0 <= j < c.rules@.len() {
            Some(rule_resource_type(c.rules@[j]))
        } else {
            None
        },
        _ => None,
    }
}

/// The resource types the clauses of `lines` are written for.
pub open spec fn resource_types_of(lines: Seq<RuleLineType>) -> Set<Seq<char>> {
    Set::new(
        |t: Seq<char>|
            exists|i: int, j: int| 0 <= i < lines.len() && #[trigger] clause_type_at(lines[i], j) == Some(t),
    )
}

/// The resource types the clauses of `rules` are written for, each once, in sorted order.
pub fn get_resource_types_in_ruleset(rules: &Vec<RuleLineType>) -> (r: Result<Vec<TypeName>, Error>)
    ensures
        r matches Ok(types) && strictly_sorted(types@.map_values(|t: TypeName| t.name@))
            && types@.map_values(|t: TypeName| t.name@).to_set() == resource_types_of(rules@),
{
    let mut names: Vec<String> = Vec::new();
    let mut i: usize = 0;
    while i < rules.len()
        invariant
            i <= rules@.len(),
            strictly_sorted(views(names@)),
            string_set(names@) == resource_types_of(rules@.take(i as int)),
        decreases rules.len() - i,
    {
        let ghost before = string_set(names@);
        let ghost prefix = rules@.take(i as int);
        let ghost next = rules@.take(i + 1);
        if let RuleLineType::Clause(clause) = &rules[i] {
            let mut j: usize = 0;
            while j < clause.rules.len()
                invariant
                    j <= clause.rules@.len(),
                    rules@[i as int] matches RuleLineType::Clause(c) && c == *clause,
                    strictly_sorted(views(names@)),
                    string_set(names@) == before.union(
                        Set::new(
                            |t: Seq<char>|
                                exists|k: int|
                                    0 <= k < j && #[trigger] rule_resource_type(clause.rules@[k])
                                        == t,
                        ),
                    ),
                decreases clause.rules.len() - j,
            {
                let name = match &clause.rules[j] {
                    Rule::Basic(b) => b.resource_type.name.clone(),
                    Rule::Conditional(c) => c.resource_type.name.clone(),
                };
                assert(name@ == rule_resource_type(clause.rules@[j as int]));
                let ghost old_set = string_set(names@);
                insert_sorted(&mut names, name);
                assert(string_set(names@) =~= before.union(
                    Set::new(
                        |t: Seq<char>|
                            exists|k: int|
                                0 <= k < j + 1 && #[trigger] rule_resource_type(clause.rules@[k])
                                    == t,
                    ),
                )) by {
                    assert forall|t: Seq<char>| #[trigger] string_set(names@).contains(t) implies before.union(
                        Set::new(
                            |t: Seq<char>|
                                exists|k: int|
                                    0 <= k < j + 1 && #[trigger] rule_resource_type(
                                        clause.rules@[k],
                                    ) == t,
                        ),
                    ).contains(t) by {
                        if !old_set.contains(t) {
                            assert(rule_resource_type(clause.rules@[j as int]) == t);
                        }
                    }
                }
                j += 1;
            }
            proof {
                assert forall|t: Seq<char>| string_set(names@).contains(t) <==> resource_types_of(next).contains(t) by {
                    if string_set(names@).contains(t) {
                        if !before.contains(t) {
                            let k = choose|k: int| 0 <= k < j && #[trigger] rule_resource_type(clause.rules@[k]) == t;
                            assert(next[i as int] == rules@[i as int]);
                            assert(clause_type_at(next[i as int], k) == Some(t));
                        } else {
                            let (a, b) = choose|a: int, b: int| 0 <= a < prefix.len() && #[trigger] clause_type_at(prefix[a], b) == Some(t);
                            assert(next[a] == prefix[a]);
                        }
                    }
                    if resource_types_of(next).contains(t) {
                        let (a, b) = choose|a: int, b: int| 0 <= a < next.len() && #[trigger] clause_type_at(next[a], b) == Some(t);
                        if a < i {
                            assert(prefix[a] == next[a]);
                            assert(before.contains(t));
                        } else {
                            assert(next[a] == rules@[i as int]);
                            assert(rule_resource_type(clause.rules@[b]) == t);
                        }
                    }
                }
                assert(string_set(names@) =~= resource_types_of(next));
            }
        } else {
            proof {
                assert forall|t: Seq<char>| before.contains(t) <==> resource_types_of(next).contains(t) by {
                    if before.contains(t) {
                        let (a, b) = choose|a: int, b: int| 0 <= a < prefix.len() && #[trigger] clause_type_at(prefix[a], b) == Some(t);
                        assert(next[a] == prefix[a]);
                    }
                    if resource_types_of(next).contains(t) {
                        let (a, b) = choose|a: int, b: int| 0 <= a < next.len() && #[trigger] clause_type_at(next[a], b) == Some(t);
                        if a < i {
                            assert(prefix[a] == next[a]);
                        } else {
                            assert(next[a] == rules@[i as int]);
                        }
                    }
                }
                assert(string_set(names@) =~= resource_types_of(next));
            }
        }
        i += 1;
    }
    assert(rules@.take(i as int) =~= rules@);
    let mut types: Vec<TypeName> = Vec::new();
    let mut k: usize = 0;
    while k < names.len()
        invariant
            k <= names@.len(),
            types@.len() == k,
            types@.map_values(|t: TypeName| t.name@) == views(names@).take(k as int),
        decreases names.len() - k,
    {
        let name = names[k].clone();
        assert(name@ == names@[k as int]@);
        types.push(TypeName { name });
        assert(types@.map_values(|t: TypeName| t.name@) =~= views(names@).take(k + 1)) by {
            assert forall|m: int| 0 <= m < k + 1 implies (#[trigger] types@[m]).name@ == names@[m]@ by {
                if m < k {
                    assert(types@.map_values(|t: TypeName| t.name@)[m] == views(names@).take(k as int)[m]);
                }
            }
        }
        k += 1;
    }
    assert(views(names@).take(k as int) =~= views(names@));
    Ok(types)
}

} // verus!
