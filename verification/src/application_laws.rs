//! What holds of the application of a rule: its conditions are granted or assumed, its result is
//! its right-hand side, and what it ensures is kept.

use vstd::prelude::*;
use crate::applicability::{
    applicability_of, match_completed, match_knowledge, match_settled, outcomes_applied,
    outcomes_of, requirements, requirements_open, rule_finished,
};
use crate::apply::{
    branches_applied, planned, rule_applied, solution_match, solutions_applied, PlanV,
};
use crate::apply_parts::{
    alternative_applied, application_of, ensured_conditions, may_be_undefined, outcome_defined,
    outcome_simplified, trivially_applied, undecided, ApplicabilityV, RuleScopeV,
};
use crate::assoc::{assoc, law_bound};
use crate::collections::CollectionSolutionV;
use crate::freshen::{
    existential_name, existentials_from, fresh_existentials, law_existential_name_is_new,
};
use crate::index::{law_extension_contains, unique_extension};
use crate::kernel::{BuiltinEffectV, Kernel};
use crate::matcher::{definition_context, terms_matched};
use crate::matching::MatchMode;
use crate::pattern::{pattern_names, pattern_variables, PatternV};
use crate::predicate::PredicateV;
use crate::predicates::{introduced_quantified, predicates_substituted};
use crate::rewrite_types::{
    PartialRuleMatchV, RhsAlternativeAttemptV, RuleApplicationV, RuleAttemptV, TrivialApplicationV,
};
use crate::rule::{RewriteRuleV, RhsAlternativeV, RuleRhsV};
use crate::simplification::{conjunction_simplified, simplified};
use crate::simplify_types::SimplificationErrorV;
use crate::solver::{SmtErrorV, SmtSolver, ValidityV};
use crate::step_laws::lemma_plan_stops;
use crate::substitution::{bound, substituted, SubstitutionV};
use crate::term::{TermV, Variable, VariableV};
use crate::truth::{law_conjunction_false, law_conjunction_true, truth_of};

verus! {

// ---------------------------------------------------------------------------------------------
// Applications
// ---------------------------------------------------------------------------------------------
/// Whether all of `predicates` are among `constraints`.
pub open spec fn all_among(predicates: Seq<PredicateV>, constraints: Seq<PredicateV>) -> bool {
    forall|i: int| 0 <= i < predicates.len() ==> constraints.contains(#[trigger] predicates[i])
}

/// Whether none of `predicates` is known to be false.
pub open spec fn none_false(predicates: Seq<PredicateV>) -> bool {
    forall|i: int| 0 <= i < predicates.len() ==> !(truth_of(#[trigger] predicates[i]) is False)
}

/// Whether all of `predicates` are known to be true.
pub open spec fn all_true(predicates: Seq<PredicateV>) -> bool {
    forall|i: int| 0 <= i < predicates.len() ==> truth_of(#[trigger] predicates[i]) is True
}

/// Whether each of `predicates` is known to be true, or among the constraints, or among `others`.
pub open spec fn settled_by(
    predicates: Seq<PredicateV>,
    constraints: Seq<PredicateV>,
    others: Seq<PredicateV>,
) -> bool {
    forall|i: int|
        0 <= i < predicates.len() ==> truth_of(#[trigger] predicates[i]) is True
            || constraints.contains(predicates[i]) || others.contains(predicates[i])
}

/// Whether the solver says that `predicates` follow from what is known.
pub open spec fn follows<S: SmtSolver>(
    solver: S,
    known: Seq<PredicateV>,
    predicates: Seq<PredicateV>,
) -> bool {
    solver.validity(known, Seq::empty(), predicates) == Ok::<ValidityV, SmtErrorV>(
        ValidityV::Valid,
    )
}

/// Whether all that is taken to be known holds behind the application: it is a constraint of the
/// resulting pattern, or says that the term that the rule is applied to is defined.
pub open spec fn known_behind<'a, K: Kernel, S: SmtSolver>(
    scope: RuleScopeV<'a, K, S>,
    application: RuleApplicationV,
    known: Seq<PredicateV>,
) -> bool {
    forall|i: int|
        0 <= i < known.len() ==> application.applied.pattern.constraints.contains(
            #[trigger] known[i],
        ) || (scope.assume_defined && scope.definition.kernel.ceil(scope.pattern.term).contains(
            known[i],
        ))
}

/// What a rule leaves of a pattern that it applies to under `conditions`.
pub open spec fn opposite_case(pattern: PatternV, conditions: Seq<PredicateV>) -> PredicateV {
    let covered = introduced_quantified(pattern_variables(pattern), conditions);
    if covered is True {
        PredicateV::False
    } else {
        PredicateV::Not(Box::new(covered))
    }
}

/// Whether `fresh` gives each of `variables` a variable of its sort whose name the pattern does not
/// have.
pub open spec fn fresh_for(
    variables: Seq<VariableV>,
    pattern: PatternV,
    fresh: SubstitutionV,
) -> bool {
    forall|i: int|
        0 <= i < variables.len() ==> is_fresh(
            #[trigger] variables[i],
            pattern_names(pattern),
            assoc(fresh, variables[i]),
        )
}

/// Whether `value` is a variable of the sort of `variable` with a name that is not in use.
pub open spec fn is_fresh(
    variable: VariableV,
    names: Seq<Seq<char>>,
    value: Option<TermV>,
) -> bool {
    &&& value is Some && value->0 is Variable
    &&& value->0->Variable_0.sort == variable.sort
    &&& !names.contains(value->0->Variable_0.name)
}

/// What shows that an application is sound.
pub struct Grounds {
    /// Under which conditions the rule applies.
    pub conditions: Seq<PredicateV>,
    /// What was known when the requirements were simplified, and what they simplify to.
    pub known_before: Seq<PredicateV>,
    pub required: Seq<PredicateV>,
    pub unclear: Seq<PredicateV>,
    /// The outcome of the rule, and the names of its existential variables.
    pub outcome: RhsAlternativeV,
    pub fresh: SubstitutionV,
    pub known_inside: Seq<PredicateV>,
    /// What the rule promises, what was known then, and what the promises simplify to.
    pub promised: Seq<PredicateV>,
    pub known: Seq<PredicateV>,
    pub kept: Seq<PredicateV>,
}

/// Whether the conditions of a rule are met: each requirement under the bindings, simplified, is
/// known to be true, is a constraint already, is one of the conditions of the application, or
/// follows from what is known. The conditions are among the constraints of the result, and what
/// the rule leaves is the opposite of just these.
pub open spec fn requirements_met<'a, K: Kernel, S: SmtSolver>(
    scope: RuleScopeV<'a, K, S>,
    application: RuleApplicationV,
    grounds: Grounds,
) -> bool {
    let applied = application.applied;
    &&& all_among(scope.pattern.constraints, applied.pattern.constraints)
    &&& all_among(grounds.conditions, applied.pattern.constraints)
    &&& known_behind(scope, application, grounds.known_before)
    &&& conjunction_simplified(
        scope.definition,
        scope.solver,
        predicates_substituted(scope.rule.requires, applied.substitution),
        grounds.known_before,
        scope.options,
    ) == Ok::<Seq<PredicateV>, SimplificationErrorV>(grounds.required)
    &&& none_false(grounds.required)
    &&& {
        ||| settled_by(grounds.required, scope.pattern.constraints, grounds.conditions)
        ||| follows(*scope.solver, grounds.known_before, grounds.unclear) && settled_by(
            grounds.required,
            scope.pattern.constraints,
            grounds.unclear,
        )
    }
    &&& application.remainder == opposite_case(scope.pattern, grounds.conditions)
}

/// Whether the result of a rule is one of its outcomes, under the bindings and with new names for
/// the existential variables; it is simplified only where it may be undefined.
pub open spec fn result_owed<'a, K: Kernel, S: SmtSolver>(
    scope: RuleScopeV<'a, K, S>,
    application: RuleApplicationV,
    grounds: Grounds,
) -> bool {
    let applied = application.applied;
    let result = substituted(
        substituted(grounds.outcome.term, applied.substitution),
        grounds.fresh,
    );
    &&& match scope.rule.rhs {
        RuleRhsV::Term(term) => grounds.outcome.term == term,
        RuleRhsV::Disjunction(outcomes) => outcomes.contains(grounds.outcome),
        _ => false,
    }
    &&& fresh_for(scope.rule.existentials, scope.pattern, grounds.fresh)
    &&& if scope.rule.computed_attributes.undefined_symbols.len() == 0 {
        applied.pattern.term == result
    } else {
        let simple = simplified(
            scope.definition,
            scope.solver,
            result,
            grounds.known_inside,
            scope.options,
        );
        &&& simple is Ok
        &&& applied.pattern.term == simple->Ok_0.term
        &&& all_among(simple->Ok_0.constraints, applied.pattern.constraints)
    }
}

/// Whether the promises of a rule are kept: each condition that it ensures, under the bindings and
/// with the new names, simplified, is a constraint of the result, unless all are known to be true
/// or follow from what is known.
pub open spec fn promises_kept<'a, K: Kernel, S: SmtSolver>(
    scope: RuleScopeV<'a, K, S>,
    application: RuleApplicationV,
    grounds: Grounds,
) -> bool {
    let applied = application.applied;
    &&& all_among(scope.rule.ensures, grounds.promised)
    &&& scope.rule.rhs is Disjunction ==> all_among(grounds.outcome.ensures, grounds.promised)
    &&& known_behind(scope, application, grounds.known)
    &&& conjunction_simplified(
        scope.definition,
        scope.solver,
        predicates_substituted(
            predicates_substituted(grounds.promised, applied.substitution),
            grounds.fresh,
        ),
        grounds.known,
        scope.options,
    ) == Ok::<Seq<PredicateV>, SimplificationErrorV>(grounds.kept)
    &&& none_false(grounds.kept)
    &&& all_true(grounds.kept) || follows(*scope.solver, grounds.known, grounds.kept) || all_among(
        grounds.kept,
        applied.pattern.constraints,
    )
}

/// Whether an application is sound, as `grounds` show.
pub open spec fn sound_by<'a, K: Kernel, S: SmtSolver>(
    scope: RuleScopeV<'a, K, S>,
    application: RuleApplicationV,
    grounds: Grounds,
) -> bool {
    &&& application.applied.unique_id == scope.rule.attributes.unique_id
    &&& application.applied.before == scope.pattern
    &&& requirements_met(scope, application, grounds)
    &&& result_owed(scope, application, grounds)
    &&& promises_kept(scope, application, grounds)
}

/// Whether an application is sound.
pub open spec fn sound<'a, K: Kernel, S: SmtSolver>(
    scope: RuleScopeV<'a, K, S>,
    application: RuleApplicationV,
) -> bool {
    exists|grounds: Grounds| #[trigger] sound_by(scope, application, grounds)
}

/// Whether all applications of an attempt are sound.
pub open spec fn attempt_sound<'a, K: Kernel, S: SmtSolver>(
    scope: RuleScopeV<'a, K, S>,
    attempt: RuleAttemptV,
) -> bool {
    match attempt {
        RuleAttemptV::Unified { applied, .. } => all_sound(scope, applied),
        _ => true,
    }
}

/// Whether all of `applied` are sound.
pub open spec fn all_sound<'a, K: Kernel, S: SmtSolver>(
    scope: RuleScopeV<'a, K, S>,
    applied: Seq<RuleApplicationV>,
) -> bool {
    forall|i: int| 0 <= i < applied.len() ==> sound(scope, #[trigger] applied[i])
}

// ---------------------------------------------------------------------------------------------
// Names
// ---------------------------------------------------------------------------------------------
proof fn lemma_existentials(
    variables: Seq<VariableV>,
    names: Seq<Seq<char>>,
    avoided: Seq<Seq<char>>,
    found: SubstitutionV,
    from: int,
    variable: VariableV,
)
    requires
        0 <= from,
        forall|i: int| 0 <= i < names.len() ==> avoided.contains(#[trigger] names[i]),
        is_fresh(variable, names, assoc(found, variable)) || exists|i: int|
            from <= i < variables.len() && variables[i] == variable,
    ensures
        is_fresh(
            variable,
            names,
            assoc(existentials_from(variables, avoided, found, from), variable),
        ),
    decreases variables.len() - from,
{
    if from < variables.len() {
        let name = existential_name(variables[from].name, avoided);
        law_existential_name_is_new(variables[from].name, avoided);
        let value = TermV::Variable(VariableV { name, ..variables[from] });
        law_bound::<Variable, TermV>(found, variables[from], value, variable);
        let more = avoided.push(name);
        assert forall|i: int| 0 <= i < names.len() implies more.contains(#[trigger] names[i]) by {
            assert(avoided.contains(names[i]));
            let j: int = choose|j: int| 0 <= j < avoided.len() && avoided[j] == names[i];
            assert(more[j] == names[i]);
        }
        if names.contains(name) {
            let i: int = choose|i: int| 0 <= i < names.len() && names[i] == name;
            assert(avoided.contains(names[i]));
        }
        lemma_existentials(
            variables,
            names,
            more,
            bound(found, variables[from], value),
            from + 1,
            variable,
        );
    }
}

/// The existential variables of a rule get new names.
pub proof fn law_existentials_are_fresh(rule: RewriteRuleV, pattern: PatternV)
    ensures
        fresh_for(rule.existentials, pattern, fresh_existentials(rule, pattern)),
{
    let names = pattern_names(pattern);
    assert forall|i: int| 0 <= i < rule.existentials.len() implies is_fresh(
        #[trigger] rule.existentials[i],
        names,
        assoc(fresh_existentials(rule, pattern), rule.existentials[i]),
    ) by {
        lemma_existentials(
            rule.existentials,
            names,
            names,
            Seq::empty(),
            0,
            rule.existentials[i],
        );
    }
}

// ---------------------------------------------------------------------------------------------
// Outcomes
// ---------------------------------------------------------------------------------------------
proof fn lemma_among_extension(left: Seq<PredicateV>, right: Seq<PredicateV>)
    ensures
        all_among(left, unique_extension(left, right)),
        all_among(right, unique_extension(left, right)),
        forall|p: PredicateV| #[trigger]
            unique_extension(left, right).contains(p) ==> left.contains(p) || right.contains(p),
{
    assert forall|i: int| 0 <= i < left.len() implies unique_extension(left, right).contains(
        #[trigger] left[i],
    ) by {
        law_extension_contains(left, right, 0, left[i]);
    }
    assert forall|i: int| 0 <= i < right.len() implies unique_extension(left, right).contains(
        #[trigger] right[i],
    ) by {
        law_extension_contains(left, right, 0, right[i]);
    }
    assert forall|p: PredicateV| #[trigger]
        unique_extension(left, right).contains(p) implies left.contains(p) || right.contains(p) by {
        law_extension_contains(left, right, 0, p);
    }
}

proof fn lemma_among_contains(
    predicates: Seq<PredicateV>,
    constraints: Seq<PredicateV>,
    predicate: PredicateV,
)
    requires
        all_among(predicates, constraints),
        predicates.contains(predicate),
    ensures
        constraints.contains(predicate),
{
    let i: int = choose|i: int| 0 <= i < predicates.len() && predicates[i] == predicate;
    assert(constraints.contains(predicates[i]));
}

proof fn lemma_among_trans(a: Seq<PredicateV>, b: Seq<PredicateV>, c: Seq<PredicateV>)
    requires
        all_among(a, b),
        all_among(b, c),
    ensures
        all_among(a, c),
{
    assert forall|i: int| 0 <= i < a.len() implies c.contains(#[trigger] a[i]) by {
        lemma_among_contains(b, c, a[i]);
    }
}

/// The constraints of the result of an application.
proof fn lemma_application_constraints<'a, K: Kernel, S: SmtSolver>(
    scope: RuleScopeV<'a, K, S>,
    applicability: ApplicabilityV,
    rhs: TermV,
    effects: Seq<BuiltinEffectV>,
    constraints: Seq<PredicateV>,
    ensured: Seq<PredicateV>,
)
    ensures
        ({
            let all = application_of(
                scope,
                applicability,
                rhs,
                effects,
                constraints,
                ensured,
            ).applied.pattern.constraints;
            &&& all_among(scope.pattern.constraints, all)
            &&& all_among(applicability.match_conditions, all)
            &&& all_among(applicability.unclear, all)
            &&& all_among(constraints, all)
            &&& all_among(ensured, all)
        }),
{
    let none = Seq::<PredicateV>::empty();
    let a = unique_extension(none, applicability.match_conditions);
    let b = unique_extension(a, applicability.unclear);
    let c = unique_extension(b, constraints);
    let d = unique_extension(c, ensured);
    let all = unique_extension(scope.pattern.constraints, d);
    lemma_among_extension(none, applicability.match_conditions);
    lemma_among_extension(a, applicability.unclear);
    lemma_among_extension(b, constraints);
    lemma_among_extension(c, ensured);
    lemma_among_extension(scope.pattern.constraints, d);
    lemma_among_trans(applicability.match_conditions, a, b);
    lemma_among_trans(applicability.match_conditions, b, c);
    lemma_among_trans(applicability.match_conditions, c, d);
    lemma_among_trans(applicability.match_conditions, d, all);
    lemma_among_trans(applicability.unclear, b, c);
    lemma_among_trans(applicability.unclear, c, d);
    lemma_among_trans(applicability.unclear, d, all);
    lemma_among_trans(constraints, c, d);
    lemma_among_trans(constraints, d, all);
    lemma_among_trans(ensured, d, all);
}

/// What is known before a rule is applied.
proof fn lemma_known<'a, K: Kernel, S: SmtSolver>(
    scope: RuleScopeV<'a, K, S>,
    application: RuleApplicationV,
    conditions: Seq<PredicateV>,
)
    requires
        all_among(scope.pattern.constraints, application.applied.pattern.constraints),
        all_among(conditions, application.applied.pattern.constraints),
    ensures
        known_behind(scope, application, match_knowledge(scope, conditions)),
{
    let all = application.applied.pattern.constraints;
    let path = scope.path_knowledge();
    let ceil = scope.definition.kernel.ceil(scope.pattern.term);
    let known = match_knowledge(scope, conditions);
    lemma_among_extension(path, conditions);
    lemma_among_extension(scope.pattern.constraints, ceil);
    assert forall|i: int| 0 <= i < known.len() implies all.contains(#[trigger] known[i]) || (
    scope.assume_defined && ceil.contains(known[i])) by {
        assert(known.contains(known[i]));
        if conditions.contains(known[i]) {
            lemma_among_contains(conditions, all, known[i]);
        } else if scope.pattern.constraints.contains(known[i]) {
            lemma_among_contains(scope.pattern.constraints, all, known[i]);
        }
    }
}

proof fn lemma_known_extended<'a, K: Kernel, S: SmtSolver>(
    scope: RuleScopeV<'a, K, S>,
    application: RuleApplicationV,
    known: Seq<PredicateV>,
    more: Seq<PredicateV>,
)
    requires
        known_behind(scope, application, known),
        all_among(more, application.applied.pattern.constraints),
    ensures
        known_behind(scope, application, unique_extension(known, more)),
{
    let all = unique_extension(known, more);
    lemma_among_extension(known, more);
    assert forall|i: int|
        0 <= i < all.len() implies application.applied.pattern.constraints.contains(
        #[trigger] all[i],
    ) || (scope.assume_defined && scope.definition.kernel.ceil(scope.pattern.term).contains(
        all[i],
    )) by {
        assert(all.contains(all[i]));
        if more.contains(all[i]) {
            lemma_among_contains(more, application.applied.pattern.constraints, all[i]);
        } else {
            let j: int = choose|j: int| 0 <= j < known.len() && known[j] == all[i];
            assert(known[j] == all[i]);
        }
    }
}

/// What is known of the requirements of a rule that is about to be applied.
spec fn ready_to_apply<'a, K: Kernel, S: SmtSolver>(
    scope: RuleScopeV<'a, K, S>,
    substitution: SubstitutionV,
    conditions: Seq<PredicateV>,
    required: Seq<PredicateV>,
) -> bool {
    requirements(scope, substitution, conditions) == Ok::<Seq<PredicateV>, RuleAttemptV>(required)
}

pub proof fn lemma_undecided(
    predicates: Seq<PredicateV>,
    known: Seq<PredicateV>,
    found: Seq<PredicateV>,
    from: int,
)
    requires
        0 <= from <= predicates.len(),
    ensures
        found.is_prefix_of(undecided(predicates, known, found, from)),
        forall|i: int|
            from <= i < predicates.len() && truth_of(#[trigger] predicates[i]) is Unknown
                && !known.contains(predicates[i]) ==> undecided(
                predicates,
                known,
                found,
                from,
            ).contains(predicates[i]),
    decreases predicates.len() - from,
{
    if from < predicates.len() {
        let next = if truth_of(predicates[from]) is Unknown && !known.contains(predicates[from]) {
            found.push(predicates[from])
        } else {
            found
        };
        lemma_undecided(predicates, known, next, from + 1);
        let all = undecided(predicates, known, found, from);
        if next.len() > found.len() {
            assert(next[found.len() as int] == predicates[from]);
            assert(all[found.len() as int] == predicates[from]);
        }
    }
}

/// One outcome of a rule.
#[verifier::spinoff_prover]
proof fn lemma_alternative_sound<'a, K: Kernel, S: SmtSolver>(
    scope: RuleScopeV<'a, K, S>,
    substitution: SubstitutionV,
    conditions: Seq<PredicateV>,
    required: Seq<PredicateV>,
    unclear: Seq<PredicateV>,
    applicability: ApplicabilityV,
    outcome: RhsAlternativeV,
)
    requires
        ready_to_apply(scope, substitution, conditions, required),
        requirements_open(scope, conditions, required) == Ok::<Seq<PredicateV>, RuleAttemptV>(
            unclear,
        ),
        applicability_of(scope, substitution, conditions, unclear) == Ok::<
            ApplicabilityV,
            RuleAttemptV,
        >(applicability),
        match scope.rule.rhs {
            RuleRhsV::Term(term) => outcome.term == term,
            RuleRhsV::Disjunction(outcomes) => outcomes.contains(outcome),
            _ => false,
        },
    ensures
        match alternative_applied(
            scope,
            applicability,
            outcome.term,
            unique_extension(scope.rule.ensures, outcome.ensures),
            unique_extension(match_knowledge(scope, conditions), unclear),
        ) {
            RhsAlternativeAttemptV::Applied(application) => sound(scope, application),
            _ => true,
        },
{
    let promised = unique_extension(scope.rule.ensures, outcome.ensures);
    let known = unique_extension(match_knowledge(scope, conditions), unclear);
    if let RhsAlternativeAttemptV::Applied(application) = alternative_applied(
        scope,
        applicability,
        outcome.term,
        promised,
        known,
    ) {
        let fresh = fresh_existentials(scope.rule, scope.pattern);
        let raw = substituted(substituted(outcome.term, applicability.substitution), fresh);
        let (rhs, constraints, effects) = outcome_simplified(scope, raw, known)->Ok_0;
        let inside = unique_extension(known, constraints);
        let defined = outcome_defined(scope, rhs, constraints, inside)->Ok_0->0;
        let asked = predicates_substituted(
            predicates_substituted(promised, applicability.substitution),
            fresh,
        );
        let kept = conjunction_simplified(
            scope.definition,
            scope.solver,
            asked,
            inside,
            scope.options,
        )->Ok_0;
        let ensured = ensured_conditions(scope, asked, inside)->Ok_0->0;
        let all = application.applied.pattern.constraints;
        assert(application == application_of(
            scope,
            applicability,
            rhs,
            effects,
            defined,
            ensured,
        ));
        lemma_application_constraints(scope, applicability, rhs, effects, defined, ensured);
        assert(all_among(constraints, all)) by {
            if may_be_undefined(scope.rule) {
                let obligations = scope.simplified(
                    scope.definition.kernel.ceil(rhs),
                    inside,
                )->Ok_0;
                lemma_among_extension(constraints, obligations);
                if defined != constraints {
                    lemma_among_trans(constraints, defined, all);
                }
            }
        }
        let decided = conditions + unclear;
        assert forall|i: int| 0 <= i < decided.len() implies all.contains(
            #[trigger] decided[i],
        ) by {
            if i < conditions.len() {
                assert(decided[i] == conditions[i]);
            } else {
                assert(decided[i] == unclear[i - conditions.len()]);
            }
        }
        lemma_known(scope, application, conditions);
        lemma_known_extended(scope, application, match_knowledge(scope, conditions), unclear);
        lemma_known_extended(scope, application, known, constraints);
        let open = undecided(required, scope.pattern.constraints, Seq::empty(), 0);
        lemma_undecided(required, scope.pattern.constraints, Seq::empty(), 0);
        law_conjunction_false(required);
        assert(none_false(required));
        let grounds = Grounds {
            conditions: decided,
            known_before: match_knowledge(scope, conditions),
            required,
            unclear: open,
            outcome,
            fresh,
            known_inside: known,
            promised,
            known: inside,
            kept,
        };
        assert(settled_by(required, scope.pattern.constraints, open));
        if unclear == open {
            assert forall|i: int| 0 <= i < required.len() implies truth_of(
                #[trigger] required[i],
            ) is True || scope.pattern.constraints.contains(required[i]) || decided.contains(
                required[i],
            ) by {
                if open.contains(required[i]) {
                    let j: int = choose|j: int| 0 <= j < open.len() && open[j] == required[i];
                    assert(decided[conditions.len() + j] == required[i]);
                }
            }
            assert(settled_by(required, scope.pattern.constraints, decided));
        } else {
            assert(follows(*scope.solver, match_knowledge(scope, conditions), open));
        }
        assert(application.remainder == opposite_case(scope.pattern, decided));
        assert(requirements_met(scope, application, grounds));
        law_existentials_are_fresh(scope.rule, scope.pattern);
        assert(result_owed(scope, application, grounds));
        lemma_among_extension(scope.rule.ensures, outcome.ensures);
        law_conjunction_false(kept);
        law_conjunction_true(kept);
        assert(promises_kept(scope, application, grounds));
        assert(sound_by(scope, application, grounds));
    }
}

proof fn lemma_outcomes_sound<'a, K: Kernel, S: SmtSolver>(
    scope: RuleScopeV<'a, K, S>,
    substitution: SubstitutionV,
    conditions: Seq<PredicateV>,
    required: Seq<PredicateV>,
    unclear: Seq<PredicateV>,
    applicability: ApplicabilityV,
    outcomes: Seq<RhsAlternativeV>,
    applied: Seq<RuleApplicationV>,
    trivial: Seq<TrivialApplicationV>,
    from: int,
)
    requires
        0 <= from <= outcomes.len(),
        ready_to_apply(scope, substitution, conditions, required),
        requirements_open(scope, conditions, required) == Ok::<Seq<PredicateV>, RuleAttemptV>(
            unclear,
        ),
        applicability_of(scope, substitution, conditions, unclear) == Ok::<
            ApplicabilityV,
            RuleAttemptV,
        >(applicability),
        outcomes_of(scope.rule) == Some(outcomes),
        all_sound(scope, applied),
    ensures
        attempt_sound(
            scope,
            outcomes_applied(
                scope,
                applicability,
                outcomes,
                unique_extension(match_knowledge(scope, conditions), unclear),
                applied,
                trivial,
                from,
            ),
        ),
        ({
            let attempt = outcomes_applied(
                scope,
                applicability,
                outcomes,
                unique_extension(match_knowledge(scope, conditions), unclear),
                applied,
                trivial,
                from,
            );
            attempt is Unified ==> attempt->applied.len() + attempt->trivial.len() == applied.len()
                + trivial.len() + outcomes.len() - from
        }),
    decreases outcomes.len() - from,
{
    let known = unique_extension(match_knowledge(scope, conditions), unclear);
    if from < outcomes.len() {
        let outcome = outcomes[from];
        assert(outcomes.contains(outcome));
        lemma_alternative_sound(
            scope,
            substitution,
            conditions,
            required,
            unclear,
            applicability,
            outcome,
        );
        match alternative_applied(
            scope,
            applicability,
            outcome.term,
            unique_extension(scope.rule.ensures, outcome.ensures),
            known,
        ) {
            RhsAlternativeAttemptV::Applied(application) => {
                let more = applied.push(application);
                assert forall|i: int| 0 <= i < more.len() implies sound(
                    scope,
                    #[trigger] more[i],
                ) by {
                    if i < applied.len() {
                        assert(more[i] == applied[i]);
                    }
                }
                lemma_outcomes_sound(
                    scope,
                    substitution,
                    conditions,
                    required,
                    unclear,
                    applicability,
                    outcomes,
                    more,
                    trivial,
                    from + 1,
                );
            },
            RhsAlternativeAttemptV::Trivial => {
                lemma_outcomes_sound(
                    scope,
                    substitution,
                    conditions,
                    required,
                    unclear,
                    applicability,
                    outcomes,
                    applied,
                    trivial.push(
                        trivially_applied(
                            scope.rule,
                            applicability.condition,
                        ),
                    ),
                    from + 1,
                );
            },
            _ => {},
        }
    }
}

proof fn lemma_finished_sound<'a, K: Kernel, S: SmtSolver>(
    scope: RuleScopeV<'a, K, S>,
    substitution: SubstitutionV,
    conditions: Seq<PredicateV>,
    required: Seq<PredicateV>,
)
    requires
        ready_to_apply(scope, substitution, conditions, required),
    ensures
        attempt_sound(scope, rule_finished(scope, substitution, conditions, required)),
{
    if let Ok(unclear) = requirements_open(scope, conditions, required) {
        if let Ok(applicability) = applicability_of(scope, substitution, conditions, unclear) {
            if let Some(outcomes) = outcomes_of(scope.rule) {
                lemma_outcomes_sound(
                    scope,
                    substitution,
                    conditions,
                    required,
                    unclear,
                    applicability,
                    outcomes,
                    Seq::empty(),
                    Seq::empty(),
                    0,
                );
            }
        }
    }
}

// ---------------------------------------------------------------------------------------------
// Rules
// ---------------------------------------------------------------------------------------------
proof fn lemma_all_sound_joined<'a, K: Kernel, S: SmtSolver>(
    scope: RuleScopeV<'a, K, S>,
    left: Seq<RuleApplicationV>,
    right: Seq<RuleApplicationV>,
)
    requires
        all_sound(scope, left),
        all_sound(scope, right),
    ensures
        all_sound(scope, left + right),
{
    let all = left + right;
    assert forall|i: int| 0 <= i < all.len() implies sound(scope, #[trigger] all[i]) by {
        if i < left.len() {
            assert(all[i] == left[i]);
        } else {
            assert(all[i] == right[i - left.len()]);
        }
    }
}

proof fn lemma_settled_sound<'a, K: Kernel, S: SmtSolver>(
    scope: RuleScopeV<'a, K, S>,
    substitution: SubstitutionV,
    inherited: Seq<PredicateV>,
    conditions: Seq<PredicateV>,
)
    ensures
        match match_settled(scope, substitution, inherited, conditions) {
            Err(attempt) => attempt_sound(scope, attempt),
            Ok(_) => true,
        },
{
}

/// Every application of a rule is sound: its requirements are met, its result is one of its
/// outcomes, and what it ensures is kept.
pub proof fn law_applications_are_sound<'a, K: Kernel, S: SmtSolver>(
    scope: RuleScopeV<'a, K, S>,
    fuel: nat,
    matched: Option<PartialRuleMatchV>,
    counter: u64,
)
    ensures
        attempt_sound(scope, rule_applied(scope, fuel, matched, counter).0),
    decreases fuel, 0int, 0int,
{
    reveal(rule_applied);
    reveal(branches_applied);
    reveal(solutions_applied);
    let (plan, after) = planned(scope, matched, counter);
    lemma_plan_stops(scope, matched, counter);
    match plan {
        PlanV::Stop(_) => {},
        PlanV::Go { substitution, conditions, inherited } => {
            lemma_settled_sound(scope, substitution, inherited, conditions);
            if let Ok((substitution, conditions)) = match_settled(
                scope,
                substitution,
                inherited,
                conditions,
            ) {
                if let Ok(required) = requirements(scope, substitution, conditions) {
                    match match_completed(scope, substitution, conditions, required) {
                        Some(matched) => {
                            if fuel > 0 {
                                law_applications_are_sound(
                                    scope,
                                    (fuel - 1) as nat,
                                    Some(matched),
                                    after,
                                );
                            }
                        },
                        None => {
                            lemma_finished_sound(scope, substitution, conditions, required);
                        },
                    }
                }
            }
        },
        PlanV::Branches(matches) => {
            if fuel > 0 {
                lemma_branches_sound(
                    scope,
                    (fuel - 1) as nat,
                    matches,
                    Seq::empty(),
                    Seq::empty(),
                    after,
                    0,
                );
            }
        },
        PlanV::Collections { solutions, remainder, inherited } => {
            if fuel > 0 {
                lemma_solutions_sound(
                    scope,
                    (fuel - 1) as nat,
                    solutions,
                    remainder,
                    inherited,
                    Seq::empty(),
                    Seq::empty(),
                    after,
                    0,
                );
            }
        },
    }
}

proof fn lemma_branches_sound<'a, K: Kernel, S: SmtSolver>(
    scope: RuleScopeV<'a, K, S>,
    fuel: nat,
    matches: Seq<PartialRuleMatchV>,
    applied: Seq<RuleApplicationV>,
    trivial: Seq<TrivialApplicationV>,
    counter: u64,
    from: int,
)
    requires
        0 <= from,
        all_sound(scope, applied),
    ensures
        attempt_sound(
            scope,
            branches_applied(scope, fuel, matches, applied, trivial, counter, from).0,
        ),
    decreases fuel, 1int, matches.len() - from,
{
    reveal(rule_applied);
    reveal(branches_applied);
    if from < matches.len() {
        law_applications_are_sound(scope, fuel, Some(matches[from]), counter);
        match rule_applied(scope, fuel, Some(matches[from]), counter) {
            (RuleAttemptV::NotApplicable, after) => {
                lemma_branches_sound(scope, fuel, matches, applied, trivial, after, from + 1);
            },
            (RuleAttemptV::Unified { applied: more, trivial: more_trivial }, after) => {
                lemma_all_sound_joined(scope, applied, more);
                lemma_branches_sound(
                    scope,
                    fuel,
                    matches,
                    applied + more,
                    trivial + more_trivial,
                    after,
                    from + 1,
                );
            },
            _ => {},
        }
    }
}

proof fn lemma_solutions_sound<'a, K: Kernel, S: SmtSolver>(
    scope: RuleScopeV<'a, K, S>,
    fuel: nat,
    solutions: Seq<CollectionSolutionV>,
    remainder: Seq<(TermV, TermV)>,
    inherited: Seq<PredicateV>,
    applied: Seq<RuleApplicationV>,
    trivial: Seq<TrivialApplicationV>,
    counter: u64,
    from: int,
)
    requires
        0 <= from,
        all_sound(scope, applied),
    ensures
        attempt_sound(
            scope,
            solutions_applied(
                scope,
                fuel,
                solutions,
                remainder,
                inherited,
                applied,
                trivial,
                counter,
                from,
            ).0,
        ),
    decreases fuel, 1int, solutions.len() - from,
{
    reveal(rule_applied);
    reveal(solutions_applied);
    if from < solutions.len() {
        let (matched, fresh) = solution_match(
            scope,
            solutions[from],
            remainder,
            inherited,
            counter,
        );
        law_applications_are_sound(scope, fuel, Some(matched), fresh);
        match rule_applied(scope, fuel, Some(matched), fresh) {
            (RuleAttemptV::NotApplicable, after) => {
                lemma_solutions_sound(
                    scope,
                    fuel,
                    solutions,
                    remainder,
                    inherited,
                    applied,
                    trivial,
                    after,
                    from + 1,
                );
            },
            (RuleAttemptV::Unified { applied: more, trivial: more_trivial }, after) => {
                lemma_all_sound_joined(scope, applied, more);
                lemma_solutions_sound(
                    scope,
                    fuel,
                    solutions,
                    remainder,
                    inherited,
                    applied + more,
                    trivial + more_trivial,
                    after,
                    from + 1,
                );
            },
            _ => {},
        }
    }
}

/// A rule whose left-hand side cannot match the term of a pattern does not apply to it.
pub proof fn law_unmatched_rules_do_not_apply<'a, K: Kernel, S: SmtSolver>(
    scope: RuleScopeV<'a, K, S>,
    fuel: nat,
    counter: u64,
)
    requires
        terms_matched(
            definition_context(MatchMode::Rewrite, scope.definition),
            scope.rule.lhs,
            scope.pattern.term,
        ) is Failed,
    ensures
        rule_applied(scope, fuel, None, counter).0 is NotApplicable,
{
    reveal(rule_applied);
    reveal(branches_applied);
    reveal(solutions_applied);
}

} // verus!
