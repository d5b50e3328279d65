//! A rule holds all that its axiom says.

use vstd::prelude::*;
use crate::definition::BackendDefinition;
use crate::internalize::{term_internalized, variable_internalized, DefinitionErrorV};
use crate::kernel::Kernel;
use crate::kore::{KorePatternV, KoreVariableV};
use crate::ops::{inserted, lemma_inserted_contains};
use crate::predicate::PredicateV;
use crate::rule::RuleAttributesV;
use crate::rules::{
    is_term, predicate_internalized, predicate_renamed, predicates_renamed, rewrite_rule_of,
    rule_side, side_internalized, sides_internalized, term_renamed, variables_internalized,
    RenamingV, SideV,
};
use crate::term::{TermV, Variable, VariableV};

verus! {

/// Whether a pattern is one of the conjuncts of another.
pub open spec fn is_conjunct(part: KorePatternV, whole: KorePatternV) -> bool
    decreases whole, 0int, 0int,
{
    match whole {
        KorePatternV::And { arguments } => is_conjunct_from(part, arguments, 0),
        _ => part == whole,
    }
}

/// The same of one of the patterns from `from` on.
pub open spec fn is_conjunct_from(
    part: KorePatternV,
    patterns: Seq<KorePatternV>,
    from: int,
) -> bool
    decreases patterns, 1int, patterns.len() - from,
{
    if 0 <= from < patterns.len() {
        is_conjunct(part, patterns[from]) || is_conjunct_from(part, patterns, from + 1)
    } else {
        false
    }
}

/// Whether a term is one of the conjuncts of another.
pub open spec fn has_part(whole: TermV, part: TermV) -> bool
    decreases whole,
{
    whole == part || (match whole {
        TermV::And(left, right) => has_part(*left, part) || has_part(*right, part),
        _ => false,
    })
}

/// Whether a conjunct of a side of an axiom is in the side of its rule: a term as one of its
/// terms, and another pattern as one of its predicates. One that is always true says nothing.
pub open spec fn is_said<K: Kernel>(
    definition: &BackendDefinition<K>,
    parameters: Seq<Seq<char>>,
    part: KorePatternV,
    side: SideV,
) -> bool {
    if is_term(part) {
        let term = term_internalized(definition, part, parameters);
        term is Ok && side.0 is Some && has_part(side.0->0, term->Ok_0)
    } else {
        let predicate = predicate_internalized(definition, part, parameters);
        part is Top || (predicate is Ok && side.1.contains(predicate->Ok_0))
    }
}

/// Whether what a side says is still said.
spec fn keeps(before: SideV, after: SideV) -> bool {
    &&& before.1.is_prefix_of(after.1)
    &&& before.0 is Some ==> after.0 is Some && forall|part: TermV| #[trigger]
        has_part(before.0->0, part) ==> has_part(after.0->0, part)
}

proof fn lemma_still_said<K: Kernel>(
    definition: &BackendDefinition<K>,
    parameters: Seq<Seq<char>>,
    part: KorePatternV,
    before: SideV,
    after: SideV,
)
    requires
        keeps(before, after),
        is_said(definition, parameters, part, before),
    ensures
        is_said(definition, parameters, part, after),
{
    if !is_term(part) && !(part is Top) {
        let predicate = predicate_internalized(definition, part, parameters)->Ok_0;
        let i: int = choose|i: int| 0 <= i < before.1.len() && before.1[i] == predicate;
        assert(after.1[i] == predicate);
    }
}

proof fn lemma_side<K: Kernel>(
    definition: &BackendDefinition<K>,
    pattern: KorePatternV,
    parameters: Seq<Seq<char>>,
    so_far: SideV,
    part: KorePatternV,
)
    requires
        side_internalized(definition, pattern, parameters, so_far) is Ok,
    ensures
        ({
            let side = side_internalized(definition, pattern, parameters, so_far)->Ok_0;
            keeps(so_far, side) && (is_conjunct(part, pattern) ==> is_said(
                definition,
                parameters,
                part,
                side,
            ))
        }),
    decreases pattern, 0int, 0int,
{
    let side = side_internalized(definition, pattern, parameters, so_far)->Ok_0;
    if let KorePatternV::And { arguments } = pattern {
        lemma_sides(definition, arguments, parameters, so_far, part, 0);
    } else if is_term(pattern) {
        let term = term_internalized(definition, pattern, parameters)->Ok_0;
        assert(has_part(term, term));
    } else if !(pattern is Top) {
        let predicate = predicate_internalized(definition, pattern, parameters)->Ok_0;
        assert(side.1 == so_far.1.push(predicate));
        assert(side.1[so_far.1.len() as int] == predicate);
    }
}

proof fn lemma_sides<K: Kernel>(
    definition: &BackendDefinition<K>,
    patterns: Seq<KorePatternV>,
    parameters: Seq<Seq<char>>,
    so_far: SideV,
    part: KorePatternV,
    from: int,
)
    requires
        0 <= from <= patterns.len(),
        sides_internalized(definition, patterns, parameters, so_far, from) is Ok,
    ensures
        ({
            let side = sides_internalized(definition, patterns, parameters, so_far, from)->Ok_0;
            keeps(so_far, side) && (is_conjunct_from(part, patterns, from) ==> is_said(
                definition,
                parameters,
                part,
                side,
            ))
        }),
    decreases patterns, 1int, patterns.len() - from,
{
    if from < patterns.len() {
        let side = sides_internalized(definition, patterns, parameters, so_far, from)->Ok_0;
        let next = side_internalized(definition, patterns[from], parameters, so_far)->Ok_0;
        lemma_side(definition, patterns[from], parameters, so_far, part);
        lemma_sides(definition, patterns, parameters, next, part, from + 1);
        if is_conjunct(part, patterns[from]) {
            lemma_still_said(definition, parameters, part, next, side);
        }
    }
}

/// Whether a conjunct of a side of an axiom is in a rule, under the names of the rule: as a part of
/// a term of which the rule has the renamed form, or as one of the rule's predicates.
pub open spec fn is_in_rule<K: Kernel>(
    definition: &BackendDefinition<K>,
    parameters: Seq<Seq<char>>,
    part: KorePatternV,
    renaming: RenamingV,
    term: TermV,
    predicates: Seq<PredicateV>,
) -> bool {
    if is_term(part) {
        exists|whole: TermV|
            term == #[trigger] term_renamed(whole, renaming) && has_part(
                whole,
                term_internalized(definition, part, parameters)->Ok_0,
            )
    } else {
        part is Top || predicates.contains(
            predicate_renamed(
                predicate_internalized(definition, part, parameters)->Ok_0,
                renaming,
            ),
        )
    }
}

proof fn lemma_in_rule<K: Kernel>(
    definition: &BackendDefinition<K>,
    parameters: Seq<Seq<char>>,
    pattern: KorePatternV,
    part: KorePatternV,
    renaming: RenamingV,
)
    requires
        rule_side(definition, pattern, parameters) is Ok,
        is_conjunct(part, pattern),
    ensures
        ({
            let (term, predicates) = rule_side(definition, pattern, parameters)->Ok_0;
            is_in_rule(
                definition,
                parameters,
                part,
                renaming,
                term_renamed(term, renaming),
                predicates_renamed(predicates, renaming),
            )
        }),
{
    let none: SideV = (None, Seq::empty());
    let (term, predicates) = rule_side(definition, pattern, parameters)->Ok_0;
    lemma_side(definition, pattern, parameters, none, part);
    if !is_term(part) && !(part is Top) {
        let predicate = predicate_internalized(definition, part, parameters)->Ok_0;
        let i: int = choose|i: int| 0 <= i < predicates.len() && predicates[i] == predicate;
        assert(predicates_renamed(predicates, renaming)[i] == predicate_renamed(
            predicate,
            renaming,
        ));
    }
}

/// Whether a variable is one of those that an axiom names.
pub open spec fn is_named<K: Kernel>(
    definition: &BackendDefinition<K>,
    parameters: Seq<Seq<char>>,
    names: Seq<KoreVariableV>,
    variable: VariableV,
) -> bool {
    exists|i: int|
        0 <= i < names.len() && variable_internalized(definition, #[trigger] names[i], parameters)
            == Ok::<VariableV, DefinitionErrorV>(variable)
}

/// Whether variables are exactly those that an axiom names.
pub open spec fn binds_exactly<K: Kernel>(
    definition: &BackendDefinition<K>,
    parameters: Seq<Seq<char>>,
    names: Seq<KoreVariableV>,
    bound: Seq<VariableV>,
) -> bool {
    forall|variable: VariableV| #[trigger]
        bound.contains(variable) <==> is_named(definition, parameters, names, variable)
}

/// A rewrite rule says all that its axiom says. Each conjunct of the axiom's left-hand side is a
/// part of the rule's left-hand side or one of its requirements, and each conjunct of the
/// right-hand side is a part of the result or one of the promises. The variables that are bound on
/// the right have other names there.
pub proof fn law_rules_say_what_axioms_say<K: Kernel>(
    definition: &BackendDefinition<K>,
    parameters: Seq<Seq<char>>,
    lhs: KorePatternV,
    rhs: KorePatternV,
    existentials: Seq<KoreVariableV>,
    attributes: RuleAttributesV,
    part: KorePatternV,
)
    requires
        rewrite_rule_of(definition, parameters, lhs, rhs, existentials, attributes) is Ok,
    ensures
        ({
            let (kind, rule) = rewrite_rule_of(
                definition,
                parameters,
                lhs,
                rhs,
                existentials,
                attributes,
            )->Ok_0;
            let left = RenamingV { prefix: "Rule#"@, existentials: Seq::empty() };
            &&& kind is Rewrite
            &&& rule.attributes == attributes
            &&& rule.rhs is Term
            &&& is_conjunct(part, lhs) ==> is_in_rule(
                definition,
                parameters,
                part,
                left,
                rule.lhs,
                rule.requires,
            )
            &&& is_conjunct(part, rhs) ==> exists|bound: Seq<VariableV>|
                #[trigger] is_in_rule(
                    definition,
                    parameters,
                    part,
                    (RenamingV { prefix: "Rule#"@, existentials: bound }),
                    rule.rhs->Term_0,
                    rule.ensures,
                ) && binds_exactly(definition, parameters, existentials, bound)
        }),
{
    let (kind, rule) = rewrite_rule_of(
        definition,
        parameters,
        lhs,
        rhs,
        existentials,
        attributes,
    )->Ok_0;
    let left = RenamingV { prefix: "Rule#"@, existentials: Seq::empty() };
    let bound = variables_internalized(
        definition,
        existentials,
        parameters,
        Seq::empty(),
        0,
    )->Ok_0;
    let right = RenamingV { prefix: "Rule#"@, existentials: bound };
    assert forall|variable: VariableV| #[trigger] bound.contains(variable) <==> is_named(
        definition,
        parameters,
        existentials,
        variable,
    ) by {
        lemma_bound(definition, existentials, parameters, Seq::empty(), 0, variable);
    }
    assert(binds_exactly(definition, parameters, existentials, bound));
    if is_conjunct(part, lhs) {
        lemma_in_rule(definition, parameters, lhs, part, left);
    }
    if is_conjunct(part, rhs) {
        lemma_in_rule(definition, parameters, rhs, part, right);
        assert(is_in_rule(
            definition,
            parameters,
            part,
            right,
            rule.rhs->Term_0,
            rule.ensures,
        ));
    }
}

proof fn lemma_bound<K: Kernel>(
    definition: &BackendDefinition<K>,
    variables: Seq<KoreVariableV>,
    parameters: Seq<Seq<char>>,
    found: Seq<VariableV>,
    from: int,
    variable: VariableV,
)
    requires
        0 <= from <= variables.len(),
        variables_internalized(definition, variables, parameters, found, from) is Ok,
    ensures
        variables_internalized(definition, variables, parameters, found, from)->Ok_0.contains(
            variable,
        ) <==> found.contains(variable) || exists|i: int|
            from <= i < variables.len() && variable_internalized(
                definition,
                #[trigger] variables[i],
                parameters,
            ) == Ok::<VariableV, DefinitionErrorV>(variable),
    decreases variables.len() - from,
{
    if from < variables.len() {
        let own = variable_internalized(definition, variables[from], parameters)->Ok_0;
        let next = inserted::<Variable>(found, own);
        lemma_inserted_contains::<Variable>(found, own, 0, variable);
        lemma_bound(definition, variables, parameters, next, from + 1, variable);
        if own == variable {
            assert(variable_internalized(definition, variables[from], parameters) == Ok::<
                VariableV,
                DefinitionErrorV,
            >(variable));
        }
    }
}

} // verus!
