//! A rule that matches is refused only for cause, and gives all its outcomes.

use vstd::prelude::*;
use crate::applicability::{
    applicability_of, match_knowledge, outcomes_applied, outcomes_of, requirements,
    requirements_open, rule_finished,
};
use crate::application_laws::all_among;
use crate::apply_parts::{
    alternative_applied, trivially_applied, undecided, ApplicabilityV, RuleScopeV,
};
use crate::index::unique_extension;
use crate::kernel::Kernel;
use crate::pattern::pattern_variables;
use crate::predicate::PredicateV;
use crate::predicates::{holds_alpha_equal, introduced_quantified, predicates_substituted};
use crate::rewrite_types::{
    RhsAlternativeAttemptV, RuleApplicationV, RuleAttemptV, TrivialApplicationV,
};
use crate::rule::{RhsAlternativeV, RuleRhsV};
use crate::simplification::conjunction_simplified;
use crate::solver::{SmtErrorV, SmtSolver, ValidityV};
use crate::substitution::SubstitutionV;
use crate::truth::{law_conjunction_false, truth_of};

verus! {

/// Whether the solver says that predicates do not hold where others do.
pub open spec fn contradicts<S: SmtSolver>(
    solver: S,
    known: Seq<PredicateV>,
    predicates: Seq<PredicateV>,
) -> bool {
    solver.validity(known, Seq::empty(), predicates) == Ok::<ValidityV, SmtErrorV>(
        ValidityV::Invalid,
    )
}

/// Whether the constraints of a pattern say that the case that a rule covers was left out.
pub open spec fn is_left_out<'a, K: Kernel, S: SmtSolver>(
    scope: RuleScopeV<'a, K, S>,
    covered: Seq<PredicateV>,
) -> bool {
    let condition = introduced_quantified(pattern_variables(scope.pattern), covered);
    !(condition is True) && holds_alpha_equal(
        scope.pattern.constraints,
        PredicateV::Not(Box::new(condition)),
        0,
    )
}

proof fn lemma_undecided_among(
    predicates: Seq<PredicateV>,
    known: Seq<PredicateV>,
    found: Seq<PredicateV>,
    from: int,
)
    requires
        0 <= from <= predicates.len(),
        all_among(found, predicates),
    ensures
        all_among(undecided(predicates, known, found, from), predicates),
    decreases predicates.len() - from,
{
    if from < predicates.len() {
        let next = if truth_of(predicates[from]) is Unknown && !known.contains(predicates[from]) {
            found.push(predicates[from])
        } else {
            found
        };
        assert forall|i: int| 0 <= i < next.len() implies predicates.contains(
            #[trigger] next[i],
        ) by {
            if i < found.len() {
                assert(next[i] == found[i]);
            } else {
                assert(predicates.contains(predicates[from]));
            }
        }
        lemma_undecided_among(predicates, known, next, from + 1);
    }
}

/// A rule whose conditions are not known to be false is refused only for cause. Either the solver
/// says that some of its requirements do not hold where it matches; or the pattern says that the
/// case that the rule covers was left out, that is, the conditions of the match and some of the
/// requirements; or the rule has no result at all.
pub proof fn law_rules_are_refused_for_cause<'a, K: Kernel, S: SmtSolver>(
    scope: RuleScopeV<'a, K, S>,
    substitution: SubstitutionV,
    conditions: Seq<PredicateV>,
    required: Seq<PredicateV>,
)
    requires
        rule_finished(scope, substitution, conditions, required) is NotApplicable,
    ensures
        ({
            let known = match_knowledge(scope, conditions);
            ||| exists|asked: Seq<PredicateV>| #[trigger]
                contradicts(*scope.solver, known, asked) && all_among(asked, required)
                    && asked.len() > 0
            ||| exists|more: Seq<PredicateV>| #[trigger]
                is_left_out(scope, conditions + more) && all_among(more, required)
            ||| !(scope.rule.rhs is Term || scope.rule.rhs is Disjunction
                || scope.rule.rhs is Bottom)
        }),
{
    let known = match_knowledge(scope, conditions);
    let asked = undecided(required, scope.pattern.constraints, Seq::empty(), 0);
    lemma_undecided_among(required, scope.pattern.constraints, Seq::empty(), 0);
    match requirements_open(scope, conditions, required) {
        Err(_) => {
            assert(contradicts(*scope.solver, known, asked));
        },
        Ok(unclear) => {
            assert(all_among(unclear, required));
            if applicability_of(scope, substitution, conditions, unclear) is Err {
                assert(is_left_out(scope, conditions + unclear));
            } else {
                let applicability = applicability_of(
                    scope,
                    substitution,
                    conditions,
                    unclear,
                )->Ok_0;
                if let Some(outcomes) = outcomes_of(scope.rule) {
                    lemma_outcomes(
                        scope,
                        applicability,
                        outcomes,
                        unique_extension(known, unclear),
                        Seq::empty(),
                        Seq::empty(),
                        0,
                    );
                }
            }
        },
    }
}

/// The requirements of a rule are refused only where one of them, simplified, is known to be false.
pub proof fn law_requirements_are_refused_for_cause<'a, K: Kernel, S: SmtSolver>(
    scope: RuleScopeV<'a, K, S>,
    substitution: SubstitutionV,
    conditions: Seq<PredicateV>,
)
    ensures
        ({
            let simple = conjunction_simplified(
                scope.definition,
                scope.solver,
                predicates_substituted(scope.rule.requires, substitution),
                match_knowledge(scope, conditions),
                scope.options,
            );
            match requirements(scope, substitution, conditions) {
                Ok(required) => simple is Ok && simple->Ok_0 == required,
                Err(RuleAttemptV::NotApplicable) => simple is Ok && exists|i: int|
                    0 <= i < simple->Ok_0.len() && truth_of(#[trigger] simple->Ok_0[i]) is False,
                Err(attempt) => simple is Err && attempt is Indeterminate,
            }
        }),
{
    let simple = conjunction_simplified(
        scope.definition,
        scope.solver,
        predicates_substituted(scope.rule.requires, substitution),
        match_knowledge(scope, conditions),
        scope.options,
    );
    if simple is Ok {
        law_conjunction_false(simple->Ok_0);
    }
}

proof fn lemma_outcomes<'a, K: Kernel, S: SmtSolver>(
    scope: RuleScopeV<'a, K, S>,
    applicability: ApplicabilityV,
    outcomes: Seq<RhsAlternativeV>,
    known: Seq<PredicateV>,
    applied: Seq<RuleApplicationV>,
    trivial: Seq<TrivialApplicationV>,
    from: int,
)
    requires
        0 <= from <= outcomes.len(),
    ensures
        match outcomes_applied(scope, applicability, outcomes, known, applied, trivial, from) {
            RuleAttemptV::Unified { applied: after, trivial: refuted } => after.len()
                + refuted.len() == applied.len() + trivial.len() + outcomes.len() - from,
            RuleAttemptV::Indeterminate(_) => true,
            _ => false,
        },
    decreases outcomes.len() - from,
{
    if from < outcomes.len() {
        match alternative_applied(
            scope,
            applicability,
            outcomes[from].term,
            unique_extension(scope.rule.ensures, outcomes[from].ensures),
            known,
        ) {
            RhsAlternativeAttemptV::Applied(application) => {
                let more = applied.push(application);
                lemma_outcomes(scope, applicability, outcomes, known, more, trivial, from + 1);
            },
            RhsAlternativeAttemptV::Trivial => {
                let more = trivial.push(trivially_applied(scope.rule, applicability.condition));
                lemma_outcomes(scope, applicability, outcomes, known, applied, more, from + 1);
            },
            _ => {},
        }
    }
}

/// A rule that applies gives all its outcomes: each gives an application, or is trivial. One
/// without outcomes is trivial itself.
pub proof fn law_outcomes_are_all_taken<'a, K: Kernel, S: SmtSolver>(
    scope: RuleScopeV<'a, K, S>,
    substitution: SubstitutionV,
    conditions: Seq<PredicateV>,
    required: Seq<PredicateV>,
)
    requires
        rule_finished(scope, substitution, conditions, required) is Unified,
    ensures
        match rule_finished(scope, substitution, conditions, required) {
            RuleAttemptV::Unified { applied, trivial } => match scope.rule.rhs {
                RuleRhsV::Term(_) => applied.len() + trivial.len() == 1,
                RuleRhsV::Disjunction(outcomes) => applied.len() + trivial.len()
                    == outcomes.len(),
                _ => applied.len() == 0 && trivial.len() == 1,
            },
            _ => false,
        },
{
    let unclear = requirements_open(scope, conditions, required)->Ok_0;
    let applicability = applicability_of(scope, substitution, conditions, unclear)->Ok_0;
    if let Some(outcomes) = outcomes_of(scope.rule) {
        lemma_outcomes(
            scope,
            applicability,
            outcomes,
            unique_extension(match_knowledge(scope, conditions), unclear),
            Seq::empty(),
            Seq::empty(),
            0,
        );
    }
}

} // verus!
