//! When equations are applied, and what they make of a term.

use vstd::prelude::*;
use crate::definition::BackendDefinition;
use crate::equations::{
    alternatives_of, condition_decided, defined_from, equation_matched, groups_for,
    match_conditions, EquationAlternativeV,
};
use crate::index::{law_extension_contains, unique_from};
use crate::kernel::{BuiltinResultV, Kernel};
use crate::predicate::PredicateV;
use crate::predicates::{predicate_substituted, predicates_substituted};
use crate::rule::{index_of, GroupsV, RewriteRuleV, RuleRhsV};
use crate::simplify_parts::{
    builtin_outcome, live_with, Environment, EquationAttempt, GroupScan, ScopeV,
};
use crate::simplify_spec::{
    alternatives_judged, ceil_equation_applied, condition_evaluated, condition_reduced,
    ensures_evaluated, equation_applied, equations_applied, group_scanned, predicates_simplified,
    root_simplified, rule_predicates_reduced, rule_predicates_simplified, theory_applied,
};
use crate::simplify_types::{EnsuresVerdictV, RuleConditionV, SimplificationErrorV, SimplificationV};
use crate::solver::{SmtErrorV, SmtSolver, ValidityV};
use crate::substitution::{substituted, SubstitutionV};
use crate::term::TermV;
use crate::truth::{law_conjunction_false, law_conjunction_true, truth_of};

verus! {

// ---------------------------------------------------------------------------------------------
// Conditions
// ---------------------------------------------------------------------------------------------
/// Whether predicates may be relied upon where `known` holds: none is known to be false, and all
/// are known to be true, or are known to hold, or follow from what is known as the solver says.
pub open spec fn granted<S: SmtSolver>(
    solver: S,
    known: Seq<PredicateV>,
    predicates: Seq<PredicateV>,
) -> bool {
    &&& forall|i: int|
        0 <= i < predicates.len() ==> !(truth_of(#[trigger] predicates[i]) is False)
    &&& {
        ||| forall|i: int|
            0 <= i < predicates.len() ==> truth_of(#[trigger] predicates[i]) is True
        ||| forall|i: int| 0 <= i < predicates.len() ==> known.contains(#[trigger] predicates[i])
        ||| solver.validity(known, Seq::empty(), predicates) == Ok::<ValidityV, SmtErrorV>(
            ValidityV::Valid,
        )
    }
}

/// Whether `reduced` are `conditions`, or what these simplify to where the same is known.
pub open spec fn reduces_to<'a, K: Kernel, S: SmtSolver>(
    environment: Environment<'a, K, S>,
    scope: ScopeV,
    conditions: Seq<PredicateV>,
    reduced: Seq<PredicateV>,
) -> bool {
    reduced == conditions || exists|fuel: nat, inner: ScopeV|
        inner.known == scope.known && #[trigger] predicates_simplified(
            environment,
            fuel,
            conditions,
            inner,
            inner.options.max_iterations,
        ) == Ok::<Seq<PredicateV>, SimplificationErrorV>(reduced)
}

/// Whether `conditions` ask all that an equation requires under a match, and that what is bound is
/// defined.
pub open spec fn asks_all<K: Kernel>(
    definition: BackendDefinition<K>,
    required: Seq<PredicateV>,
    substitution: SubstitutionV,
    conditions: Seq<PredicateV>,
) -> bool {
    &&& forall|i: int|
        0 <= i < required.len() ==> conditions.contains(
            predicate_substituted(#[trigger] required[i], substitution),
        )
    &&& forall|i: int, j: int|
        0 <= i < substitution.len() && substitution[i].0.kind is Element && 0 <= j
            < definition.kernel.ceil(substitution[i].1).len() ==> conditions.contains(
            #[trigger] definition.kernel.ceil(substitution[i].1)[j],
        )
}

/// Whether what an equation requires under a match is granted.
pub open spec fn requirements_granted<'a, K: Kernel, S: SmtSolver>(
    environment: Environment<'a, K, S>,
    scope: ScopeV,
    required: Seq<PredicateV>,
    substitution: SubstitutionV,
) -> bool {
    exists|conditions: Seq<PredicateV>, reduced: Seq<PredicateV>|
        asks_all(*environment.definition, required, substitution, conditions) && #[trigger]
            reduces_to(environment, scope, conditions, reduced) && granted(
            *environment.solver,
            scope.known,
            reduced,
        )
}

/// Whether what an equation ensures under a match is granted, or is among `constraints`, or these
/// are false.
pub open spec fn promises_kept<'a, K: Kernel, S: SmtSolver>(
    environment: Environment<'a, K, S>,
    scope: ScopeV,
    promised: Seq<PredicateV>,
    substitution: SubstitutionV,
    constraints: Seq<PredicateV>,
) -> bool {
    ||| constraints.contains(PredicateV::False)
    ||| exists|reduced: Seq<PredicateV>|
        #[trigger] reduces_to(
            environment,
            scope,
            predicates_substituted(promised, substitution),
            reduced,
        ) && ((forall|i: int|
            0 <= i < reduced.len() ==> truth_of(#[trigger] reduced[i]) is True)
            || environment.solver.validity(scope.known, Seq::empty(), reduced) == Ok::<
            ValidityV,
            SmtErrorV,
        >(ValidityV::Valid) || forall|i: int|
            0 <= i < reduced.len() ==> constraints.contains(#[trigger] reduced[i]))
}

/// Whether `result` is the right-hand side of an equation under a match, with what it ensures.
pub open spec fn is_right_side<'a, K: Kernel, S: SmtSolver>(
    environment: Environment<'a, K, S>,
    scope: ScopeV,
    rule: RewriteRuleV,
    substitution: SubstitutionV,
    term: TermV,
    result: SimplificationV,
) -> bool {
    match rule.rhs {
        RuleRhsV::Term(rhs) => {
            &&& result.term == substituted(rhs, substitution)
            &&& promises_kept(
                environment,
                scope,
                rule.ensures,
                substitution,
                result.constraints,
            )
        },
        RuleRhsV::Bottom => result.term == term && result.constraints.contains(PredicateV::False),
        RuleRhsV::Disjunction(alternatives) => {
            ||| result.constraints.contains(PredicateV::False)
            ||| exists|i: int|
                0 <= i < alternatives.len() && result.term == substituted(
                    (#[trigger] alternatives[i]).term,
                    substitution,
                )
        },
        _ => false,
    }
}

proof fn lemma_defined_from<K: Kernel>(
    definition: BackendDefinition<K>,
    conditions: Seq<PredicateV>,
    substitution: SubstitutionV,
    from: int,
)
    requires
        0 <= from,
    ensures
        forall|p: PredicateV| conditions.contains(p) ==> #[trigger] defined_from(
            definition,
            conditions,
            substitution,
            from,
        ).contains(p),
        forall|i: int, j: int|
            from <= i < substitution.len() && substitution[i].0.kind is Element && 0 <= j
                < definition.kernel.ceil(substitution[i].1).len() ==> defined_from(
                definition,
                conditions,
                substitution,
                from,
            ).contains(#[trigger] definition.kernel.ceil(substitution[i].1)[j]),
    decreases substitution.len() - from,
{
    if from < substitution.len() {
        let ceil = definition.kernel.ceil(substitution[from].1);
        let next = if substitution[from].0.kind is Element {
            unique_from(conditions, ceil, 0)
        } else {
            conditions
        };
        lemma_defined_from(definition, next, substitution, from + 1);
        assert(defined_from(definition, conditions, substitution, from) == defined_from(
            definition,
            next,
            substitution,
            from + 1,
        ));
        assert forall|p: PredicateV| conditions.contains(p) implies #[trigger] defined_from(
            definition,
            conditions,
            substitution,
            from,
        ).contains(p) by {
            law_extension_contains(conditions, ceil, 0, p);
            assert(next.contains(p));
        }
        assert forall|i: int, j: int|
            from <= i < substitution.len() && substitution[i].0.kind is Element && 0 <= j
                < definition.kernel.ceil(substitution[i].1).len() implies defined_from(
            definition,
            conditions,
            substitution,
            from,
        ).contains(#[trigger] definition.kernel.ceil(substitution[i].1)[j]) by {
            if i == from {
                law_extension_contains(conditions, ceil, 0, ceil[j]);
                assert(next.contains(ceil[j]));
            }
        }
    }
}

proof fn lemma_asks_all<K: Kernel>(
    definition: BackendDefinition<K>,
    required: Seq<PredicateV>,
    substitution: SubstitutionV,
)
    ensures
        asks_all(
            definition,
            required,
            substitution,
            match_conditions(definition, required, substitution),
        ),
{
    let now = predicates_substituted(required, substitution);
    let conditions = match_conditions(definition, required, substitution);
    lemma_defined_from(definition, now, substitution, 0);
    assert forall|i: int| 0 <= i < required.len() implies conditions.contains(
        predicate_substituted(#[trigger] required[i], substitution),
    ) by {
        assert(now[i] == predicate_substituted(required[i], substitution));
        assert(now.contains(now[i]));
    }
}

proof fn lemma_reduces_to<'a, K: Kernel, S: SmtSolver>(
    environment: Environment<'a, K, S>,
    fuel: nat,
    rule_id: Seq<char>,
    anchor: TermV,
    predicates: Seq<PredicateV>,
    scope: ScopeV,
)
    ensures
        reduces_to(
            environment,
            scope,
            predicates,
            rule_predicates_reduced(environment, fuel, rule_id, anchor, predicates, scope),
        ),
{
    reveal(rule_predicates_simplified);
    if !scope.active.contains((rule_id, anchor)) && fuel > 0 {
        let inner = ScopeV { active: scope.active.push((rule_id, anchor)), ..scope };
        let outcome = predicates_simplified(
            environment,
            (fuel - 1) as nat,
            predicates,
            inner,
            inner.options.max_iterations,
        );
        if let Ok(reduced) = outcome {
            assert(inner.known == scope.known);
        }
    }
}

/// A condition counts as satisfied only where all that is asked is granted.
pub proof fn law_satisfied_conditions_are_granted<'a, K: Kernel, S: SmtSolver>(
    environment: Environment<'a, K, S>,
    fuel: nat,
    rule_id: Seq<char>,
    anchor: Option<TermV>,
    predicates: Seq<PredicateV>,
    scope: ScopeV,
)
    requires
        condition_evaluated(environment, fuel, rule_id, anchor, predicates, scope) == Ok::<
            RuleConditionV,
            SimplificationErrorV,
        >(RuleConditionV::Satisfied),
    ensures
        exists|reduced: Seq<PredicateV>|
            #[trigger] reduces_to(environment, scope, predicates, reduced) && granted(
                *environment.solver,
                scope.known,
                reduced,
            ),
{
    reveal(condition_evaluated);
    let reduced = condition_reduced(environment, fuel, rule_id, anchor, predicates, scope);
    if let Some(anchor) = anchor {
        lemma_reduces_to(environment, fuel, rule_id, anchor, predicates, scope);
    }
    assert(reduces_to(environment, scope, predicates, reduced));
    law_conjunction_false(reduced);
    law_conjunction_true(reduced);
}

/// A condition that is granted is not refused: where all that is asked, simplified, is known to be
/// true or is known to hold, the condition is satisfied; where one is known to be false, it is
/// refuted.
pub proof fn law_conditions_are_decided<S: SmtSolver>(
    solver: S,
    rule_id: Seq<char>,
    predicates: Seq<PredicateV>,
    known: Seq<PredicateV>,
)
    ensures
        granted(solver, known, predicates) ==> condition_decided(
            solver,
            rule_id,
            predicates,
            known,
        ) == Ok::<RuleConditionV, SimplificationErrorV>(RuleConditionV::Satisfied),
        (exists|i: int|
            0 <= i < predicates.len() && truth_of(#[trigger] predicates[i]) is False)
            ==> condition_decided(solver, rule_id, predicates, known) == Ok::<
            RuleConditionV,
            SimplificationErrorV,
        >(RuleConditionV::Refuted),
{
    law_conjunction_false(predicates);
    law_conjunction_true(predicates);
}

// ---------------------------------------------------------------------------------------------
// Equations
// ---------------------------------------------------------------------------------------------
/// The outcomes of an equation that are not refuted come from its right-hand side.
proof fn lemma_alternatives<'a, K: Kernel, S: SmtSolver>(
    environment: Environment<'a, K, S>,
    fuel: nat,
    rule: RewriteRuleV,
    term: TermV,
    substitution: SubstitutionV,
    alternatives: Seq<EquationAlternativeV>,
    live: Seq<(TermV, Seq<PredicateV>)>,
    scope: ScopeV,
    from: int,
)
    requires
        0 <= from <= alternatives.len(),
        forall|k: int|
            0 <= k < live.len() ==> exists|i: int|
                0 <= i < alternatives.len() && (#[trigger] live[k]).0 == (
                #[trigger] alternatives[i]).term,
    ensures
        match alternatives_judged(
            environment,
            fuel,
            rule,
            term,
            substitution,
            alternatives,
            live,
            scope,
            from,
        ) {
            Ok(all) => forall|k: int|
                0 <= k < all.len() ==> exists|i: int|
                    0 <= i < alternatives.len() && (#[trigger] all[k]).0 == (
                    #[trigger] alternatives[i]).term,
            Err(_) => true,
        },
    decreases alternatives.len() - from,
{
    reveal(alternatives_judged);
    reveal(ensures_evaluated);
    if from < alternatives.len() {
        if let Ok(verdict) = ensures_evaluated(
            environment,
            fuel,
            rule.attributes.unique_id,
            term,
            predicates_substituted(alternatives[from].ensures, substitution),
            scope,
        ) {
            let next = live_with(live, alternatives[from], rule.rhs is Disjunction, verdict);
            assert forall|k: int| 0 <= k < next.len() implies exists|i: int|
                0 <= i < alternatives.len() && (#[trigger] next[k]).0 == (
                #[trigger] alternatives[i]).term by {
                if k < live.len() {
                    assert(next[k] == live[k]);
                } else {
                    assert(next[k].0 == alternatives[from].term);
                }
            }
            lemma_alternatives(
                environment,
                fuel,
                rule,
                term,
                substitution,
                alternatives,
                next,
                scope,
                from + 1,
            );
        }
    }
}

/// The only outcome of an equation without alternatives.
proof fn lemma_single_alternative<'a, K: Kernel, S: SmtSolver>(
    environment: Environment<'a, K, S>,
    fuel: nat,
    rule: RewriteRuleV,
    term: TermV,
    substitution: SubstitutionV,
    alternative: EquationAlternativeV,
    scope: ScopeV,
)
    requires
        !(rule.rhs is Disjunction),
    ensures
        match alternatives_judged(
            environment,
            fuel,
            rule,
            term,
            substitution,
            seq![alternative],
            Seq::empty(),
            scope,
            0,
        ) {
            Ok(live) => {
                &&& live.len() == 1
                &&& live[0].0 == alternative.term
                &&& alternative.bottom ==> live[0].1.contains(PredicateV::False)
                &&& promises_kept(
                    environment,
                    scope,
                    alternative.ensures,
                    substitution,
                    live[0].1,
                )
            },
            Err(_) => true,
        },
{
    reveal(alternatives_judged);
    reveal(ensures_evaluated);
    let promised = predicates_substituted(alternative.ensures, substitution);
    let rule_id = rule.attributes.unique_id;
    assert(seq![alternative][0] == alternative);
    if let Ok(verdict) = ensures_evaluated(environment, fuel, rule_id, term, promised, scope) {
        let live = live_with(Seq::empty(), alternative, false, verdict);
        assert(alternatives_judged(
            environment,
            fuel,
            rule,
            term,
            substitution,
            seq![alternative],
            Seq::empty(),
            scope,
            0,
        ) == alternatives_judged(
            environment,
            fuel,
            rule,
            term,
            substitution,
            seq![alternative],
            live,
            scope,
            1,
        ));
        assert(alternatives_judged(
            environment,
            fuel,
            rule,
            term,
            substitution,
            seq![alternative],
            live,
            scope,
            1,
        ) == Ok::<Seq<(TermV, Seq<PredicateV>)>, SimplificationErrorV>(live));
        let reduced = rule_predicates_reduced(environment, fuel, rule_id, term, promised, scope);
        lemma_reduces_to(environment, fuel, rule_id, term, promised, scope);
        law_conjunction_true(reduced);
        let constraints = live[0].1;
        match verdict {
            EnsuresVerdictV::Refuted => {
                assert(constraints[0] == PredicateV::False);
                assert(constraints.contains(PredicateV::False));
            },
            EnsuresVerdictV::Holds => {
                if alternative.bottom {
                    assert(constraints[0] == PredicateV::False);
                }
                assert(reduces_to(environment, scope, promised, reduced));
            },
            EnsuresVerdictV::Open(open) => {
                if alternative.bottom {
                    assert(constraints[open.len() as int] == PredicateV::False);
                }
                assert forall|i: int| 0 <= i < reduced.len() implies constraints.contains(
                    #[trigger] reduced[i],
                ) by {
                    assert(constraints[i] == reduced[i]);
                }
                assert(reduces_to(environment, scope, promised, reduced));
            },
        }
    }
}

/// An equation is applied to a term only where it matches and where all that it requires under the
/// match is granted. What comes out is its right-hand side under the match, and what it ensures is
/// granted or among the constraints of the result.
pub proof fn law_equations_are_applied_where_granted<'a, K: Kernel, S: SmtSolver>(
    environment: Environment<'a, K, S>,
    fuel: nat,
    rule: RewriteRuleV,
    term: TermV,
    scope: ScopeV,
)
    ensures
        match equation_applied(environment, fuel, rule, term, scope) {
            Ok(EquationAttempt::Applied(result)) => {
                let found = equation_matched(environment.definition, rule.lhs, term);
                &&& found is Found
                &&& requirements_granted(environment, scope, rule.requires, found->Found_0)
                &&& is_right_side(environment, scope, rule, found->Found_0, term, result)
                &&& result.applied_rules == seq![rule.attributes.unique_id]
            },
            _ => true,
        },
{
    reveal(equation_applied);
    reveal(condition_evaluated);
    reveal(alternatives_judged);
    if let Ok(EquationAttempt::Applied(result)) = equation_applied(
        environment,
        fuel,
        rule,
        term,
        scope,
    ) {
        let substitution = equation_matched(environment.definition, rule.lhs, term)->Found_0;
        let conditions = match_conditions(
            *environment.definition,
            rule.requires,
            substitution,
        );
        lemma_asks_all(*environment.definition, rule.requires, substitution);
        law_satisfied_conditions_are_granted(
            environment,
            fuel,
            rule.attributes.unique_id,
            Some(term),
            conditions,
            scope,
        );
        let reduced = choose|reduced: Seq<PredicateV>|
            #[trigger] reduces_to(environment, scope, conditions, reduced) && granted(
                *environment.solver,
                scope.known,
                reduced,
            );
        assert(reduces_to(environment, scope, conditions, reduced));
        assert(requirements_granted(environment, scope, rule.requires, substitution));
        let alternatives = alternatives_of(rule, term, substitution);
        match rule.rhs {
            RuleRhsV::Disjunction(outcomes) => {
                lemma_alternatives(
                    environment,
                    fuel,
                    rule,
                    term,
                    substitution,
                    alternatives,
                    Seq::empty(),
                    scope,
                    0,
                );
                let live = alternatives_judged(
                    environment,
                    fuel,
                    rule,
                    term,
                    substitution,
                    alternatives,
                    Seq::empty(),
                    scope,
                    0,
                )->Ok_0;
                if live.len() == 0 {
                    assert(result.constraints[0] == PredicateV::False);
                } else {
                    assert(live[0].0 == result.term);
                    let i: int = choose|i: int|
                        0 <= i < alternatives.len() && live[0].0 == (
                        #[trigger] alternatives[i]).term;
                    assert(result.term == substituted(outcomes[i].term, substitution));
                }
            },
            _ => {
                lemma_single_alternative(
                    environment,
                    fuel,
                    rule,
                    term,
                    substitution,
                    alternatives[0],
                    scope,
                );
                assert(alternatives =~= seq![alternatives[0]]);
            },
        }
    }
}

/// An equation for definedness is applied only where it matches and where all that it requires
/// under the match is granted.
pub proof fn law_ceil_equations_are_applied_where_granted<'a, K: Kernel, S: SmtSolver>(
    environment: Environment<'a, K, S>,
    fuel: nat,
    rule: RewriteRuleV,
    term: TermV,
    scope: ScopeV,
)
    ensures
        match ceil_equation_applied(environment, fuel, rule, term, scope) {
            Ok(EquationAttempt::Applied(_)) => {
                let found = equation_matched(environment.definition, rule.lhs, term);
                &&& found is Found
                &&& requirements_granted(environment, scope, rule.requires, found->Found_0)
            },
            _ => true,
        },
{
    reveal(ceil_equation_applied);
    reveal(condition_evaluated);
    if let Ok(EquationAttempt::Applied(_)) = ceil_equation_applied(
        environment,
        fuel,
        rule,
        term,
        scope,
    ) {
        let substitution = equation_matched(environment.definition, rule.lhs, term)->Found_0;
        let conditions = match_conditions(
            *environment.definition,
            rule.requires,
            substitution,
        );
        lemma_asks_all(*environment.definition, rule.requires, substitution);
        law_satisfied_conditions_are_granted(
            environment,
            fuel,
            rule.attributes.unique_id,
            Some(term),
            conditions,
            scope,
        );
        let reduced = choose|reduced: Seq<PredicateV>|
            #[trigger] reduces_to(environment, scope, conditions, reduced) && granted(
                *environment.solver,
                scope.known,
                reduced,
            );
        assert(reduces_to(environment, scope, conditions, reduced));
    }
}

// ---------------------------------------------------------------------------------------------
// Theories
// ---------------------------------------------------------------------------------------------
/// Whether `rule`, at position `at` of group `group`, is applied to a term with the given result,
/// and no rule before it in that group is.
pub open spec fn first_in_group<'a, K: Kernel, S: SmtSolver>(
    environment: Environment<'a, K, S>,
    fuel: nat,
    rules: Seq<RewriteRuleV>,
    at: int,
    term: TermV,
    scope: ScopeV,
    result: SimplificationV,
) -> bool {
    &&& 0 <= at < rules.len()
    &&& equation_applied(environment, fuel, rules[at], term, scope) == Ok::<
        EquationAttempt<SimplificationV>,
        SimplificationErrorV,
    >(EquationAttempt::Applied(result))
    &&& none_applies(environment, fuel, rules.take(at), term, scope)
}

/// Whether no rule is applied to a term.
pub open spec fn none_applies<'a, K: Kernel, S: SmtSolver>(
    environment: Environment<'a, K, S>,
    fuel: nat,
    rules: Seq<RewriteRuleV>,
    term: TermV,
    scope: ScopeV,
) -> bool {
    forall|i: int|
        0 <= i < rules.len() ==> match equation_applied(
            environment,
            fuel,
            #[trigger] rules[i],
            term,
            scope,
        ) {
            Ok(EquationAttempt::Applied(_)) => false,
            Ok(_) => true,
            Err(_) => false,
        }
}

#[verifier::spinoff_prover]
#[verifier::rlimit(50)]
proof fn lemma_scan_unfolds<'a, K: Kernel, S: SmtSolver>(
    environment: Environment<'a, K, S>,
    fuel: nat,
    rules: Seq<RewriteRuleV>,
    open: bool,
    term: TermV,
    scope: ScopeV,
    from: int,
)
    ensures
        0 <= from < rules.len() ==> group_scanned(
            environment,
            fuel,
            rules,
            open,
            term,
            scope,
            from,
        ) == (match equation_applied(environment, fuel, rules[from], term, scope) {
            Err(error) => Err(error),
            Ok(EquationAttempt::Applied(result)) => Ok(GroupScan::Applied(result)),
            Ok(EquationAttempt::Indeterminate) => group_scanned(
                environment,
                fuel,
                rules,
                true,
                term,
                scope,
                from + 1,
            ),
            Ok(EquationAttempt::NotApplicable) => group_scanned(
                environment,
                fuel,
                rules,
                open,
                term,
                scope,
                from + 1,
            ),
        }),
        !(0 <= from < rules.len()) ==> group_scanned(
            environment,
            fuel,
            rules,
            open,
            term,
            scope,
            from,
        ) == Ok::<GroupScan<SimplificationV>, SimplificationErrorV>(
            if open {
                GroupScan::Blocked
            } else {
                GroupScan::NotApplicable
            },
        ),
{
    reveal(group_scanned);
    reveal(equation_applied);
}

proof fn lemma_group_scanned<'a, K: Kernel, S: SmtSolver>(
    environment: Environment<'a, K, S>,
    fuel: nat,
    rules: Seq<RewriteRuleV>,
    open: bool,
    term: TermV,
    scope: ScopeV,
    from: int,
)
    requires
        0 <= from <= rules.len(),
        none_applies(environment, fuel, rules.take(from), term, scope),
    ensures
        match group_scanned(environment, fuel, rules, open, term, scope, from) {
            Ok(GroupScan::Applied(result)) => exists|at: int| #[trigger]
                first_in_group(environment, fuel, rules, at, term, scope, result),
            Ok(_) => none_applies(environment, fuel, rules, term, scope),
            Err(_) => true,
        },
    decreases rules.len() - from,
{
    lemma_scan_unfolds(environment, fuel, rules, open, term, scope, from);
    if from < rules.len() {
        match equation_applied(environment, fuel, rules[from], term, scope) {
            Ok(EquationAttempt::Applied(result)) => {
                assert(first_in_group(environment, fuel, rules, from, term, scope, result));
            },
            Ok(attempt) => {
                let more = rules.take(from + 1);
                assert forall|i: int| 0 <= i < more.len() implies match equation_applied(
                    environment,
                    fuel,
                    #[trigger] more[i],
                    term,
                    scope,
                ) {
                    Ok(EquationAttempt::Applied(_)) => false,
                    Ok(_) => true,
                    Err(_) => false,
                } by {
                    if i < from {
                        assert(rules.take(from)[i] == more[i]);
                    }
                }
                lemma_group_scanned(environment, fuel, rules, open, term, scope, from + 1);
                lemma_group_scanned(environment, fuel, rules, true, term, scope, from + 1);
            },
            Err(_) => {},
        }
    } else {
        assert(rules.take(from) =~= rules);
    }
}

/// Whether the rule that is applied to a term stands in group `group`, and is the first that is.
pub open spec fn first_in_groups<'a, K: Kernel, S: SmtSolver>(
    environment: Environment<'a, K, S>,
    fuel: nat,
    groups: GroupsV,
    group: int,
    term: TermV,
    scope: ScopeV,
    result: SimplificationV,
) -> bool {
    &&& 0 <= group < groups.len()
    &&& exists|at: int| #[trigger]
        first_in_group(environment, fuel, groups[group].1, at, term, scope, result)
    &&& forall|i: int|
        0 <= i < group ==> none_applies(
            environment,
            fuel,
            (#[trigger] groups[i]).1,
            term,
            scope,
        )
}

proof fn lemma_theory<'a, K: Kernel, S: SmtSolver>(
    environment: Environment<'a, K, S>,
    fuel: nat,
    groups: GroupsV,
    block: bool,
    term: TermV,
    scope: ScopeV,
    from: int,
)
    requires
        0 <= from <= groups.len(),
        forall|i: int|
            0 <= i < from ==> none_applies(
                environment,
                fuel,
                (#[trigger] groups[i]).1,
                term,
                scope,
            ),
    ensures
        match theory_applied(environment, fuel, groups, block, term, scope, from) {
            Ok(Some(result)) => exists|group: int| #[trigger]
                first_in_groups(environment, fuel, groups, group, term, scope, result),
            Ok(None) => !block ==> forall|i: int|
                0 <= i < groups.len() ==> none_applies(
                    environment,
                    fuel,
                    (#[trigger] groups[i]).1,
                    term,
                    scope,
                ),
            Err(_) => true,
        },
    decreases groups.len() - from,
{
    reveal(theory_applied);
    reveal(group_scanned);
    if from < groups.len() {
        let rules = groups[from].1;
        assert(rules.take(0) =~= Seq::empty());
        lemma_group_scanned(environment, fuel, rules, false, term, scope, 0);
        match group_scanned(environment, fuel, rules, false, term, scope, 0) {
            Ok(GroupScan::Applied(result)) => {
                assert(first_in_groups(environment, fuel, groups, from, term, scope, result));
            },
            Ok(_) => {
                lemma_theory(environment, fuel, groups, block, term, scope, from + 1);
            },
            Err(_) => {},
        }
    }
}

/// The equations of a theory are tried in the order of their priorities: the one that is applied is
/// the first that applies, and where none is, though all are tried, none applies.
pub proof fn law_first_applicable_equation<'a, K: Kernel, S: SmtSolver>(
    environment: Environment<'a, K, S>,
    fuel: nat,
    groups: GroupsV,
    block: bool,
    term: TermV,
    scope: ScopeV,
)
    ensures
        match theory_applied(environment, fuel, groups, block, term, scope, 0) {
            Ok(Some(result)) => exists|group: int| #[trigger]
                first_in_groups(environment, fuel, groups, group, term, scope, result),
            Ok(None) => !block ==> forall|i: int|
                0 <= i < groups.len() ==> none_applies(
                    environment,
                    fuel,
                    (#[trigger] groups[i]).1,
                    term,
                    scope,
                ),
            Err(_) => true,
        },
{
    lemma_theory(environment, fuel, groups, block, term, scope, 0);
}

/// A term changes by itself only where a builtin function gives its value, or where an equation of
/// the theories is applied to it; and where nothing of that is the case, it stays as it is.
pub proof fn law_terms_change_by_rules<'a, K: Kernel, S: SmtSolver>(
    environment: Environment<'a, K, S>,
    fuel: nat,
    term: TermV,
    scope: ScopeV,
)
    ensures
        match root_simplified(environment, fuel, term, scope) {
            Ok(result) => match builtin_outcome(*environment.definition, term) {
                Ok(BuiltinResultV::Value(value)) => result.term == value
                    && result.constraints.len() == 0,
                Ok(BuiltinResultV::Bottom) => result.constraints.contains(PredicateV::False),
                Ok(BuiltinResultV::Effect(effect)) => result.effects.contains(effect),
                Ok(_) => {
                    let functions = groups_for(
                        environment.definition.function_theory@,
                        index_of(term),
                    );
                    let simplifications = groups_for(
                        environment.definition.simplification_theory@,
                        index_of(term),
                    );
                    ||| exists|group: int| #[trigger]
                        first_in_groups(
                            environment,
                            fuel,
                            functions,
                            group,
                            term,
                            scope,
                            result,
                        )
                    ||| exists|group: int| #[trigger]
                        first_in_groups(
                            environment,
                            fuel,
                            simplifications,
                            group,
                            term,
                            scope,
                            result,
                        )
                    ||| result.term == term && result.applied_rules.len() == 0
                        && result.constraints.len() == 0 && forall|i: int|
                        0 <= i < simplifications.len() ==> none_applies(
                            environment,
                            fuel,
                            (#[trigger] simplifications[i]).1,
                            term,
                            scope,
                        )
                },
                Err(_) => false,
            },
            Err(_) => true,
        },
{
    reveal(root_simplified);
    reveal(equations_applied);
    reveal(theory_applied);
    let functions = groups_for(environment.definition.function_theory@, index_of(term));
    let simplifications = groups_for(
        environment.definition.simplification_theory@,
        index_of(term),
    );
    law_first_applicable_equation(environment, fuel, functions, true, term, scope);
    law_first_applicable_equation(environment, fuel, simplifications, false, term, scope);
    if let Ok(result) = root_simplified(environment, fuel, term, scope) {
        match builtin_outcome(*environment.definition, term) {
            Ok(BuiltinResultV::Bottom) => {
                assert(result.constraints[0] == PredicateV::False);
            },
            Ok(BuiltinResultV::Effect(effect)) => {
                assert(result.effects[0] == effect);
            },
            _ => {},
        }
    }
}

} // verus!
