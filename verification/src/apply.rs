//! The application of a rule to a pattern.

use vstd::prelude::*;
use crate::applicability::{
    complete_match, finish_rule, match_completed, match_settled, requirements, rule_finished,
    settle_match, simplify_requirements,
};
use crate::apply_parts::{keep_undecided, undecided, RuleScope, RuleScopeV};
use crate::collections::{CollectionSolution, CollectionSolutionV};
use crate::freshen::{freshen_unbound_rule_variables, freshened};
use crate::index::{extend_unique, unique_extension};
use crate::kernel::Kernel;
use crate::map_keys::{map_key_matches, recover_symbolic_map_key_matches};
use crate::matcher::{definition_context, match_terms_in_definition, terms_matched};
use crate::matching::{MatchMode, MatchResult, MatchResultV};
use crate::model::{deep, group_deep, Value};
use crate::narrow::{
    collection_unification_definedness, function_equality, functional_symbolic, generally_unified,
    overload_symbolic, pairs_defined, recover_function_equality_match,
    recover_functional_symbolic_match, recover_general_unification, recover_overload_symbolic_match,
    remainders_narrowed, solve_collection_remainders_with_narrowing, GeneralUnificationRecovery,
    GeneralUnificationRecoveryV, Narrowed,
};
use crate::predicate::{Predicate, PredicateV};
use crate::predicates::{predicates_substituted, substitute_predicates};
use crate::recovery::{match_recovered, recover_indeterminate_match, RecoveryScope, RecoveryScopeV};
use crate::rewrite_types::{
    IndeterminateReason, IndeterminateReasonV, PartialRuleMatch, PartialRuleMatchV, RuleApplication,
    RuleApplicationV, RuleAttempt, RuleAttemptV, TrivialApplication, TrivialApplicationV,
};
use crate::solver::{SmtSolver, Validity};
use crate::splits::{
    boolean_matches, equality_matches, ite_matches, not_in_keys_matches, recover_boolean_matches,
    recover_equality_matches, recover_ite_matches, recover_map_not_in_keys_matches,
};
use crate::substitution::{Substitution, SubstitutionV};
use crate::term::{Term, TermV};
use crate::truth::{conjunction_truth, predicates_truth, Truth};

verus! {

broadcast use group_deep;

/// How the application of a rule goes on, once its left-hand side was matched.
#[derive(Debug, PartialEq, Eq)]
pub enum Plan {
    Stop(RuleAttempt),
    Go { substitution: Substitution, conditions: Vec<Predicate>, inherited: Vec<Predicate> },
    /// The rule is applied with each of the matches.
    Branches(Vec<PartialRuleMatch>),
    /// The rule is applied with each of the solutions of open pairs of collections.
    Collections {
        solutions: Vec<CollectionSolution>,
        remainder: Vec<(Term, Term)>,
        inherited: Vec<Predicate>,
    },
}

/// The view of [`Plan`].
pub enum PlanV {
    Stop(RuleAttemptV),
    Go { substitution: SubstitutionV, conditions: Seq<PredicateV>, inherited: Seq<PredicateV> },
    Branches(Seq<PartialRuleMatchV>),
    Collections {
        solutions: Seq<CollectionSolutionV>,
        remainder: Seq<(TermV, TermV)>,
        inherited: Seq<PredicateV>,
    },
}

impl View for Plan {
    type V = PlanV;

    open spec fn view(&self) -> PlanV {
        match self {
            Plan::Stop(first) => PlanV::Stop(first@),
            Plan::Go { substitution, conditions, inherited } => PlanV::Go {
                substitution: substitution@,
                conditions: deep(conditions@),
                inherited: deep(inherited@),
            },
            Plan::Branches(first) => PlanV::Branches(deep(first@)),
            Plan::Collections { solutions, remainder, inherited } => PlanV::Collections {
                solutions: deep(solutions@),
                remainder: deep(remainder@),
                inherited: deep(inherited@),
            },
        }
    }
}

impl DeepView for Plan {
    type V = PlanV;

    open spec fn deep_view(&self) -> PlanV {
        self@
    }
}

// ---------------------------------------------------------------------------------------------
// How an open match goes on
// ---------------------------------------------------------------------------------------------
/// `found` with the matches from `from` on, under the inherited conditions.
pub open spec fn with_inherited(
    inherited: Seq<PredicateV>,
    matches: Seq<PartialRuleMatchV>,
    found: Seq<PartialRuleMatchV>,
    from: int,
) -> Seq<PartialRuleMatchV>
    decreases matches.len() - from,
{
    if from >= matches.len() {
        found
    } else {
        with_inherited(
            inherited,
            matches,
            found.push(
                PartialRuleMatchV {
                    conditions: inherited + matches[from].conditions,
                    ..matches[from]
                },
            ),
            from + 1,
        )
    }
}

fn inherit(inherited: &Vec<Predicate>, matches: &Vec<PartialRuleMatch>) -> (result: Vec<
    PartialRuleMatch,
>)
    ensures
        deep(result@) == with_inherited(deep(inherited@), deep(matches@), Seq::empty(), 0),
{
    let mut result: Vec<PartialRuleMatch> = Vec::new();
    let mut i: usize = 0;
    while i < matches.len()
        invariant
            i <= matches.len(),
            with_inherited(deep(inherited@), deep(matches@), Seq::empty(), 0) == with_inherited(
                deep(inherited@),
                deep(matches@),
                deep(result@),
                i as int,
            ),
        decreases matches.len() - i,
    {
        assert(deep(matches@)[i as int] == matches[i as int]@);
        let mut conditions = inherited.duplicate();
        let mut more = matches[i].conditions.duplicate();
        conditions.append(&mut more);
        result.push(
            PartialRuleMatch {
                substitution: matches[i].substitution.duplicate(),
                conditions,
                remainder: matches[i].remainder.duplicate(),
            },
        );
        i += 1;
    }
    result
}

/// `found` with the solutions from `from` on as matches, under the inherited conditions.
pub open spec fn solutions_inherited(
    inherited: Seq<PredicateV>,
    solutions: Seq<Narrowed>,
    found: Seq<PartialRuleMatchV>,
    from: int,
) -> Seq<PartialRuleMatchV>
    decreases solutions.len() - from,
{
    if from >= solutions.len() {
        found
    } else {
        solutions_inherited(
            inherited,
            solutions,
            found.push(
                PartialRuleMatchV {
                    substitution: solutions[from].0,
                    conditions: inherited + solutions[from].1,
                    remainder: Seq::empty(),
                },
            ),
            from + 1,
        )
    }
}

fn inherit_solutions(
    inherited: &Vec<Predicate>,
    solutions: &Vec<(Substitution, Vec<Predicate>)>,
) -> (result: Vec<PartialRuleMatch>)
    ensures
        deep(result@) == solutions_inherited(deep(inherited@), deep(solutions@), Seq::empty(), 0),
{
    let mut result: Vec<PartialRuleMatch> = Vec::new();
    let mut i: usize = 0;
    while i < solutions.len()
        invariant
            i <= solutions.len(),
            solutions_inherited(deep(inherited@), deep(solutions@), Seq::empty(), 0)
                == solutions_inherited(
                deep(inherited@),
                deep(solutions@),
                deep(result@),
                i as int,
            ),
        decreases solutions.len() - i,
    {
        assert(deep(solutions@)[i as int] == solutions[i as int].deep_view());
        let mut conditions = inherited.duplicate();
        let mut more = solutions[i].1.duplicate();
        conditions.append(&mut more);
        result.push(
            PartialRuleMatch {
                substitution: solutions[i].0.duplicate(),
                conditions,
                remainder: Vec::new(),
            },
        );
        i += 1;
    }
    result
}

/// The branches by taking a pair of the remainder apart, where one can be.
pub open spec fn splits_planned<'a, K: Kernel, S: SmtSolver>(
    scope: RuleScopeV<'a, K, S>,
    substitution: SubstitutionV,
    remainder: Seq<(TermV, TermV)>,
    counter: u64,
) -> (Option<Seq<PartialRuleMatchV>>, u64) {
    let definition = scope.definition;
    match boolean_matches(definition, substitution, remainder) {
        Some(matches) => (Some(matches), counter),
        None => match map_key_matches(definition, substitution, remainder) {
            Some(matches) => (Some(matches), counter),
            None => match not_in_keys_matches(
                definition,
                scope.rule,
                scope.pattern,
                substitution,
                remainder,
                counter,
            ) {
                (Some(matches), after) => (Some(matches), after),
                (None, after) => match equality_matches(
                    definition,
                    scope.rule,
                    scope.pattern,
                    substitution,
                    remainder,
                    after,
                ) {
                    (Some(matches), after) => (Some(matches), after),
                    (None, after) => (ite_matches(definition, substitution, remainder), after),
                },
            },
        },
    }
}

fn plan_splits<'a, K: Kernel, S: SmtSolver>(
    scope: &RuleScope<'a, K, S>,
    substitution: &Substitution,
    remainder: &Vec<(Term, Term)>,
    counter: &mut u64,
) -> (result: Option<Vec<PartialRuleMatch>>)
    ensures
        (result.deep_view(), *final(counter)) == splits_planned(
            scope@,
            substitution@,
            deep(remainder@),
            *old(counter),
        ),
{
    let found = recover_boolean_matches(scope.definition, substitution, remainder);
    if found.is_some() {
        return found;
    }
    let found = recover_symbolic_map_key_matches(scope.definition, substitution, remainder);
    if found.is_some() {
        return found;
    }
    let found = recover_map_not_in_keys_matches(
        scope.definition,
        scope.rule,
        scope.pattern,
        substitution,
        remainder,
        counter,
    );
    if found.is_some() {
        return found;
    }
    let found = recover_equality_matches(
        scope.definition,
        scope.rule,
        scope.pattern,
        substitution,
        remainder,
        counter,
    );
    if found.is_some() {
        return found;
    }
    recover_ite_matches(scope.definition, substitution, remainder)
}

/// What trying the rule gives where the match stays open: the rule does not apply where its
/// requirements do not hold under what is bound.
pub open spec fn left_open<'a, K: Kernel, S: SmtSolver>(
    scope: RuleScopeV<'a, K, S>,
    substitution: SubstitutionV,
    remainder: Seq<(TermV, TermV)>,
    known: Seq<PredicateV>,
) -> RuleAttemptV {
    match scope.simplified(predicates_substituted(scope.rule.requires, substitution), known) {
        Err(reason) => RuleAttemptV::Indeterminate(reason),
        Ok(required) => {
            let unclear = undecided(required, known, Seq::empty(), 0);
            if conjunction_truth(required) is False || (unclear.len() > 0 && scope.solver.validity(
                known,
                Seq::empty(),
                unclear,
            ) is Ok && scope.solver.validity(known, Seq::empty(), unclear)->Ok_0 is Invalid) {
                RuleAttemptV::NotApplicable
            } else {
                RuleAttemptV::Indeterminate(
                    IndeterminateReasonV::Match {
                        rule_id: scope.rule.attributes.unique_id,
                        substitution,
                        remainder,
                    },
                )
            }
        },
    }
}

#[verifier::spinoff_prover]
fn leave_open<'a, K: Kernel, S: SmtSolver>(
    scope: &RuleScope<'a, K, S>,
    substitution: Substitution,
    remainder: Vec<(Term, Term)>,
    known: &Vec<Predicate>,
) -> (result: RuleAttempt)
    ensures
        result@ == left_open(scope@, substitution@, deep(remainder@), deep(known@)),
{
    let required = substitute_predicates(&scope.rule.requires, &substitution);
    let required = match scope.simplify(&required, known) {
        Ok(required) => required,
        Err(reason) => {
            return RuleAttempt::Indeterminate(reason);
        },
    };
    if matches!(predicates_truth(&required), Truth::False) {
        return RuleAttempt::NotApplicable;
    }
    let unclear = keep_undecided(&required, known);
    if unclear.len() > 0 {
        if let Ok(Validity::Invalid) = scope.solver.check_predicates(
            known,
            &Substitution::new(),
            &unclear,
        ) {
            return RuleAttempt::NotApplicable;
        }
    }
    RuleAttempt::Indeterminate(
        IndeterminateReason::Match {
            rule_id: scope.rule.attributes.unique_id.duplicate(),
            substitution,
            remainder,
        },
    )
}

/// How an open match goes on that neither splits nor is solved by narrowing collections.
pub open spec fn unification_planned<'a, K: Kernel, S: SmtSolver>(
    scope: RuleScopeV<'a, K, S>,
    substitution: SubstitutionV,
    remainder: Seq<(TermV, TermV)>,
    inherited: Seq<PredicateV>,
    known: Seq<PredicateV>,
    counter: u64,
) -> (PlanV, u64) {
    let definition = scope.definition;
    let rule = scope.rule;
    let pattern = scope.pattern;
    match overload_symbolic(definition, pattern, substitution, remainder, counter) {
        (Some((substitution, conditions)), after) => (
            PlanV::Go { substitution, conditions, inherited },
            after,
        ),
        (None, after) => match generally_unified(
            definition,
            rule,
            pattern,
            substitution,
            remainder,
            after,
        ) {
            (GeneralUnificationRecoveryV::Unified(solutions), after) => if solutions.len() == 1 {
                (
                    PlanV::Go {
                        substitution: solutions[0].0,
                        conditions: solutions[0].1,
                        inherited,
                    },
                    after,
                )
            } else {
                (
                    PlanV::Branches(solutions_inherited(inherited, solutions, Seq::empty(), 0)),
                    after,
                )
            },
            (GeneralUnificationRecoveryV::Bottom, after) => (
                PlanV::Stop(RuleAttemptV::NotApplicable),
                after,
            ),
            (GeneralUnificationRecoveryV::Unsupported, after) => match functional_symbolic(
                definition,
                rule,
                pattern,
                substitution,
                remainder,
                after,
            ) {
                (Some((substitution, conditions)), after) => (
                    PlanV::Go { substitution, conditions, inherited },
                    after,
                ),
                (None, after) => match function_equality(
                    rule,
                    pattern,
                    substitution,
                    remainder,
                    after,
                ) {
                    (Some((substitution, conditions)), after) => (
                        PlanV::Go { substitution, conditions, inherited },
                        after,
                    ),
                    (None, after) => (
                        PlanV::Stop(left_open(scope, substitution, remainder, known)),
                        after,
                    ),
                },
            },
        },
    }
}

#[verifier::spinoff_prover]
fn plan_unification<'a, K: Kernel, S: SmtSolver>(
    scope: &RuleScope<'a, K, S>,
    substitution: Substitution,
    remainder: Vec<(Term, Term)>,
    inherited: Vec<Predicate>,
    known: &Vec<Predicate>,
    counter: &mut u64,
) -> (result: Plan)
    ensures
        (result@, *final(counter)) == unification_planned(
            scope@,
            substitution@,
            deep(remainder@),
            deep(inherited@),
            deep(known@),
            *old(counter),
        ),
{
    if let Some((bound, conditions)) = recover_overload_symbolic_match(
        scope.definition,
        scope.pattern,
        &substitution,
        &remainder,
        counter,
    ) {
        return Plan::Go { substitution: bound, conditions, inherited };
    }
    match recover_general_unification(
        scope.definition,
        scope.rule,
        scope.pattern,
        substitution.duplicate(),
        remainder.duplicate(),
        counter,
    ) {
        GeneralUnificationRecovery::Unified(solutions) => {
            if solutions.len() == 1 {
                assert(deep(solutions@)[0] == solutions[0].deep_view());
                return Plan::Go {
                    substitution: solutions[0].0.duplicate(),
                    conditions: solutions[0].1.duplicate(),
                    inherited,
                };
            }
            return Plan::Branches(inherit_solutions(&inherited, &solutions));
        },
        GeneralUnificationRecovery::Bottom => {
            return Plan::Stop(RuleAttempt::NotApplicable);
        },
        GeneralUnificationRecovery::Unsupported => {},
    }
    if let Some((bound, conditions)) = recover_functional_symbolic_match(
        scope.definition,
        scope.rule,
        scope.pattern,
        &substitution,
        &remainder,
        counter,
    ) {
        return Plan::Go { substitution: bound, conditions, inherited };
    }
    if let Some((bound, conditions)) = recover_function_equality_match(
        scope.rule,
        scope.pattern,
        &substitution,
        &remainder,
        counter,
    ) {
        return Plan::Go { substitution: bound, conditions, inherited };
    }
    Plan::Stop(leave_open(scope, substitution, remainder, known))
}

/// How an open match goes on.
pub open spec fn open_planned<'a, K: Kernel, S: SmtSolver>(
    scope: RuleScopeV<'a, K, S>,
    substitution: SubstitutionV,
    remainder: Seq<(TermV, TermV)>,
    inherited: Seq<PredicateV>,
    known: Seq<PredicateV>,
    counter: u64,
) -> (PlanV, u64) {
    match splits_planned(scope, substitution, remainder, counter) {
        (Some(matches), after) => (
            PlanV::Branches(with_inherited(inherited, matches, Seq::empty(), 0)),
            after,
        ),
        (None, after) => match remainders_narrowed(
            scope.definition,
            scope.pattern,
            substitution,
            remainder,
            after,
        ) {
            (Some(solutions), after) => if solutions.len() == 0 {
                (PlanV::Stop(RuleAttemptV::NotApplicable), after)
            } else {
                (PlanV::Collections { solutions, remainder, inherited }, after)
            },
            (None, after) => unification_planned(
                scope,
                substitution,
                remainder,
                inherited,
                known,
                after,
            ),
        },
    }
}

#[verifier::spinoff_prover]
fn plan_open<'a, K: Kernel, S: SmtSolver>(
    scope: &RuleScope<'a, K, S>,
    substitution: Substitution,
    remainder: Vec<(Term, Term)>,
    inherited: Vec<Predicate>,
    known: &Vec<Predicate>,
    counter: &mut u64,
) -> (result: Plan)
    ensures
        (result@, *final(counter)) == open_planned(
            scope@,
            substitution@,
            deep(remainder@),
            deep(inherited@),
            deep(known@),
            *old(counter),
        ),
{
    if let Some(matches) = plan_splits(scope, &substitution, &remainder, counter) {
        return Plan::Branches(inherit(&inherited, &matches));
    }
    if let Some(solutions) = solve_collection_remainders_with_narrowing(
        scope.definition,
        scope.pattern,
        substitution.duplicate(),
        &remainder,
        counter,
    ) {
        if solutions.len() == 0 {
            return Plan::Stop(RuleAttempt::NotApplicable);
        }
        return Plan::Collections { solutions, remainder, inherited };
    }
    plan_unification(scope, substitution, remainder, inherited, known, counter)
}

/// How the application goes on with a match that has open pairs: first these are simplified.
pub open spec fn indeterminate_planned<'a, K: Kernel, S: SmtSolver>(
    scope: RuleScopeV<'a, K, S>,
    substitution: SubstitutionV,
    remainder: Seq<(TermV, TermV)>,
    inherited: Seq<PredicateV>,
    counter: u64,
) -> (PlanV, u64) {
    let known = unique_extension(scope.path_knowledge(), inherited);
    match match_recovered(
        RecoveryScopeV {
            definition: scope.definition,
            solver: scope.solver,
            known,
            options: scope.options,
        },
        substitution,
        remainder,
    ) {
        Err(error) => (
            PlanV::Stop(RuleAttemptV::Indeterminate(scope.failure(error))),
            counter,
        ),
        Ok(recovered) => {
            let inherited = unique_extension(inherited, recovered.conditions);
            match recovered.result {
                MatchResultV::Failed(_) => (PlanV::Stop(RuleAttemptV::NotApplicable), counter),
                MatchResultV::Success(substitution) => (
                    PlanV::Go { substitution, conditions: Seq::empty(), inherited },
                    counter,
                ),
                MatchResultV::Indeterminate { substitution, remainder } => open_planned(
                    scope,
                    substitution,
                    remainder,
                    inherited,
                    unique_extension(known, recovered.conditions),
                    counter,
                ),
            }
        },
    }
}

#[verifier::spinoff_prover]
fn plan_indeterminate<'a, K: Kernel, S: SmtSolver>(
    scope: &RuleScope<'a, K, S>,
    substitution: Substitution,
    remainder: Vec<(Term, Term)>,
    inherited: Vec<Predicate>,
    counter: &mut u64,
) -> (result: Plan)
    ensures
        (result@, *final(counter)) == indeterminate_planned(
            scope@,
            substitution@,
            deep(remainder@),
            deep(inherited@),
            *old(counter),
        ),
{
    let mut known = scope.path_knowledge();
    extend_unique(&mut known, inherited.duplicate());
    let recovery_scope = RecoveryScope {
        definition: scope.definition,
        solver: scope.solver,
        known: &known,
        options: scope.options,
    };
    let recovered = match recover_indeterminate_match(&recovery_scope, substitution, &remainder) {
        Ok(recovered) => recovered,
        Err(error) => {
            return Plan::Stop(RuleAttempt::Indeterminate(scope.failure(error)));
        },
    };
    let mut all = inherited;
    extend_unique(&mut all, recovered.conditions.duplicate());
    match recovered.result {
        MatchResult::Failed(_) => Plan::Stop(RuleAttempt::NotApplicable),
        MatchResult::Success(bound) => Plan::Go {
            substitution: bound,
            conditions: Vec::new(),
            inherited: all,
        },
        MatchResult::Indeterminate { substitution: bound, remainder: open } => {
            let mut knowledge = known.duplicate();
            extend_unique(&mut knowledge, recovered.conditions);
            plan_open(scope, bound, open, all, &knowledge, counter)
        },
    }
}

/// How the application of a rule starts: with a match that is given, or by matching its left-hand
/// side.
pub open spec fn planned<'a, K: Kernel, S: SmtSolver>(
    scope: RuleScopeV<'a, K, S>,
    matched: Option<PartialRuleMatchV>,
    counter: u64,
) -> (PlanV, u64) {
    match matched {
        Some(matched) => if matched.remainder.len() == 0 {
            (
                PlanV::Go {
                    substitution: matched.substitution,
                    conditions: Seq::empty(),
                    inherited: matched.conditions,
                },
                counter,
            )
        } else {
            indeterminate_planned(
                scope,
                matched.substitution,
                matched.remainder,
                matched.conditions,
                counter,
            )
        },
        None => match terms_matched(
            definition_context(MatchMode::Rewrite, scope.definition),
            scope.rule.lhs,
            scope.pattern.term,
        ) {
            MatchResultV::Failed(_) => (PlanV::Stop(RuleAttemptV::NotApplicable), counter),
            MatchResultV::Success(substitution) => (
                PlanV::Go { substitution, conditions: Seq::empty(), inherited: Seq::empty() },
                counter,
            ),
            MatchResultV::Indeterminate { substitution, remainder } => indeterminate_planned(
                scope,
                substitution,
                remainder,
                Seq::empty(),
                counter,
            ),
        },
    }
}

#[verifier::spinoff_prover]
fn plan<'a, K: Kernel, S: SmtSolver>(
    scope: &RuleScope<'a, K, S>,
    matched: Option<PartialRuleMatch>,
    counter: &mut u64,
) -> (result: Plan)
    ensures
        (result@, *final(counter)) == planned(scope@, matched.deep_view(), *old(counter)),
{
    match matched {
        Some(matched) => {
            if matched.remainder.len() == 0 {
                Plan::Go {
                    substitution: matched.substitution,
                    conditions: Vec::new(),
                    inherited: matched.conditions,
                }
            } else {
                plan_indeterminate(
                    scope,
                    matched.substitution,
                    matched.remainder,
                    matched.conditions,
                    counter,
                )
            }
        },
        None => match match_terms_in_definition(
            MatchMode::Rewrite,
            scope.definition,
            &scope.rule.lhs,
            &scope.pattern.term,
        ) {
            MatchResult::Failed(_) => Plan::Stop(RuleAttempt::NotApplicable),
            MatchResult::Success(substitution) => Plan::Go {
                substitution,
                conditions: Vec::new(),
                inherited: Vec::new(),
            },
            MatchResult::Indeterminate { substitution, remainder } => plan_indeterminate(
                scope,
                substitution,
                remainder,
                Vec::new(),
                counter,
            ),
        },
    }
}

// ---------------------------------------------------------------------------------------------
// Application
// ---------------------------------------------------------------------------------------------
/// The match for one solution of open pairs of collections.
pub open spec fn solution_match<'a, K: Kernel, S: SmtSolver>(
    scope: RuleScopeV<'a, K, S>,
    solution: CollectionSolutionV,
    remainder: Seq<(TermV, TermV)>,
    inherited: Seq<PredicateV>,
    counter: u64,
) -> (PartialRuleMatchV, u64) {
    let fresh = freshened(scope.rule, scope.pattern, solution.substitution, counter);
    (
        PartialRuleMatchV {
            substitution: fresh.substitution,
            conditions: unique_extension(
                unique_extension(
                    inherited,
                    predicates_substituted(solution.constraints, fresh.substitution),
                ),
                pairs_defined(scope.definition, remainder, fresh.substitution, Seq::empty(), 0),
            ),
            remainder: Seq::empty(),
        },
        fresh.counter,
    )
}

fn match_solution<'a, K: Kernel, S: SmtSolver>(
    scope: &RuleScope<'a, K, S>,
    solution: &CollectionSolution,
    remainder: &Vec<(Term, Term)>,
    inherited: &Vec<Predicate>,
    counter: &mut u64,
) -> (result: PartialRuleMatch)
    ensures
        (result@, *final(counter)) == solution_match(
            scope@,
            solution@,
            deep(remainder@),
            deep(inherited@),
            *old(counter),
        ),
{
    let (substitution, _) = freshen_unbound_rule_variables(
        scope.rule,
        scope.pattern,
        solution.substitution.duplicate(),
        counter,
    );
    let mut conditions = inherited.duplicate();
    extend_unique(
        &mut conditions,
        substitute_predicates(&solution.constraints, &substitution),
    );
    extend_unique(
        &mut conditions,
        collection_unification_definedness(scope.definition, remainder, &substitution),
    );
    PartialRuleMatch { substitution, conditions, remainder: Vec::new() }
}

/// What several attempts give together.
pub open spec fn combined(
    applied: Seq<RuleApplicationV>,
    trivial: Seq<TrivialApplicationV>,
) -> RuleAttemptV {
    if applied.len() == 0 && trivial.len() == 0 {
        RuleAttemptV::NotApplicable
    } else {
        RuleAttemptV::Unified { applied, trivial }
    }
}

fn combine(applied: Vec<RuleApplication>, trivial: Vec<TrivialApplication>) -> (result: RuleAttempt)
    ensures
        result@ == combined(deep(applied@), deep(trivial@)),
{
    if applied.len() == 0 && trivial.len() == 0 {
        RuleAttempt::NotApplicable
    } else {
        RuleAttempt::Unified { applied, trivial }
    }
}

/// What applying a rule gives, where a match may be refined at most `fuel` times. `matched` is the
/// match to go on from, if there is one.
#[verifier::opaque]
pub open spec fn rule_applied<'a, K: Kernel, S: SmtSolver>(
    scope: RuleScopeV<'a, K, S>,
    fuel: nat,
    matched: Option<PartialRuleMatchV>,
    counter: u64,
) -> (RuleAttemptV, u64)
    decreases fuel, 0int, 0int,
{
    let (plan, after) = planned(scope, matched, counter);
    match plan {
        PlanV::Stop(attempt) => (attempt, after),
        PlanV::Go { substitution, conditions, inherited } => match match_settled(
            scope,
            substitution,
            inherited,
            conditions,
        ) {
            Err(attempt) => (attempt, after),
            Ok((substitution, conditions)) => match requirements(scope, substitution, conditions) {
                Err(attempt) => (attempt, after),
                Ok(required) => match match_completed(scope, substitution, conditions, required) {
                    Some(matched) => if fuel == 0 {
                        (exhausted(scope), after)
                    } else {
                        rule_applied(scope, (fuel - 1) as nat, Some(matched), after)
                    },
                    None => (rule_finished(scope, substitution, conditions, required), after),
                },
            },
        },
        PlanV::Branches(matches) => if fuel == 0 {
            (exhausted(scope), after)
        } else {
            branches_applied(
                scope,
                (fuel - 1) as nat,
                matches,
                Seq::empty(),
                Seq::empty(),
                after,
                0,
            )
        },
        PlanV::Collections { solutions, remainder, inherited } => if fuel == 0 {
            (exhausted(scope), after)
        } else {
            solutions_applied(
                scope,
                (fuel - 1) as nat,
                solutions,
                remainder,
                inherited,
                Seq::empty(),
                Seq::empty(),
                after,
                0,
            )
        },
    }
}

/// What trying a rule gives where its match was refined too often.
pub open spec fn exhausted<'a, K: Kernel, S: SmtSolver>(scope: RuleScopeV<'a, K, S>) -> RuleAttemptV {
    RuleAttemptV::Indeterminate(
        IndeterminateReasonV::Match {
            rule_id: scope.rule.attributes.unique_id,
            substitution: Seq::empty(),
            remainder: Seq::empty(),
        },
    )
}

/// What the matches from `from` on give, behind what was found.
pub open spec fn branches_applied<'a, K: Kernel, S: SmtSolver>(
    scope: RuleScopeV<'a, K, S>,
    fuel: nat,
    matches: Seq<PartialRuleMatchV>,
    applied: Seq<RuleApplicationV>,
    trivial: Seq<TrivialApplicationV>,
    counter: u64,
    from: int,
) -> (RuleAttemptV, u64)
    decreases fuel, 1int, matches.len() - from,
{
    if from >= matches.len() {
        (combined(applied, trivial), counter)
    } else {
        match rule_applied(scope, fuel, Some(matches[from]), counter) {
            (RuleAttemptV::NotApplicable, after) => branches_applied(
                scope,
                fuel,
                matches,
                applied,
                trivial,
                after,
                from + 1,
            ),
            (RuleAttemptV::Unified { applied: more, trivial: more_trivial }, after) => {
                branches_applied(
                    scope,
                    fuel,
                    matches,
                    applied + more,
                    trivial + more_trivial,
                    after,
                    from + 1,
                )
            },
            (RuleAttemptV::Indeterminate(reason), after) => (
                RuleAttemptV::Indeterminate(reason),
                after,
            ),
        }
    }
}

/// What the solutions from `from` on give, behind what was found.
pub open spec fn solutions_applied<'a, K: Kernel, S: SmtSolver>(
    scope: RuleScopeV<'a, K, S>,
    fuel: nat,
    solutions: Seq<CollectionSolutionV>,
    remainder: Seq<(TermV, TermV)>,
    inherited: Seq<PredicateV>,
    applied: Seq<RuleApplicationV>,
    trivial: Seq<TrivialApplicationV>,
    counter: u64,
    from: int,
) -> (RuleAttemptV, u64)
    decreases fuel, 1int, solutions.len() - from,
{
    if from >= solutions.len() {
        (combined(applied, trivial), counter)
    } else {
        let (matched, fresh) = solution_match(
            scope,
            solutions[from],
            remainder,
            inherited,
            counter,
        );
        match rule_applied(scope, fuel, Some(matched), fresh) {
            (RuleAttemptV::NotApplicable, after) => solutions_applied(
                scope,
                fuel,
                solutions,
                remainder,
                inherited,
                applied,
                trivial,
                after,
                from + 1,
            ),
            (RuleAttemptV::Unified { applied: more, trivial: more_trivial }, after) => {
                solutions_applied(
                    scope,
                    fuel,
                    solutions,
                    remainder,
                    inherited,
                    applied + more,
                    trivial + more_trivial,
                    after,
                    from + 1,
                )
            },
            (RuleAttemptV::Indeterminate(reason), after) => (
                RuleAttemptV::Indeterminate(reason),
                after,
            ),
        }
    }
}

fn exhaust<'a, K: Kernel, S: SmtSolver>(scope: &RuleScope<'a, K, S>) -> (result: RuleAttempt)
    ensures
        result@ == exhausted(scope@),
{
    RuleAttempt::Indeterminate(
        IndeterminateReason::Match {
            rule_id: scope.rule.attributes.unique_id.duplicate(),
            substitution: Substitution::new(),
            remainder: Vec::new(),
        },
    )
}

#[verifier::spinoff_prover]
fn apply_rule_with_match<'a, K: Kernel, S: SmtSolver>(
    scope: &RuleScope<'a, K, S>,
    fuel: usize,
    matched: Option<PartialRuleMatch>,
    counter: &mut u64,
) -> (result: RuleAttempt)
    ensures
        (result@, *final(counter)) == rule_applied(
            scope@,
            fuel as nat,
            matched.deep_view(),
            *old(counter),
        ),
    decreases fuel, 0int,
{
    reveal(rule_applied);
    match plan(scope, matched, counter) {
        Plan::Stop(attempt) => attempt,
        Plan::Go { substitution, conditions, inherited } => {
            let (bound, open) = match settle_match(scope, substitution, inherited, conditions) {
                Ok(settled) => settled,
                Err(attempt) => {
                    return attempt;
                },
            };
            let required = match simplify_requirements(scope, &bound, &open) {
                Ok(required) => required,
                Err(attempt) => {
                    return attempt;
                },
            };
            if let Some(completed) = complete_match(scope, &bound, &open, &required) {
                if fuel == 0 {
                    return exhaust(scope);
                }
                return apply_rule_with_match(scope, fuel - 1, Some(completed), counter);
            }
            finish_rule(scope, bound, open, &required)
        },
        Plan::Branches(matches) => if fuel == 0 {
            exhaust(scope)
        } else {
            apply_branches(scope, fuel - 1, &matches, counter)
        },
        Plan::Collections { solutions, remainder, inherited } => if fuel == 0 {
            exhaust(scope)
        } else {
            apply_solutions(scope, fuel - 1, &solutions, &remainder, &inherited, counter)
        },
    }
}

#[verifier::spinoff_prover]
fn apply_branches<'a, K: Kernel, S: SmtSolver>(
    scope: &RuleScope<'a, K, S>,
    fuel: usize,
    matches: &Vec<PartialRuleMatch>,
    counter: &mut u64,
) -> (result: RuleAttempt)
    ensures
        (result@, *final(counter)) == branches_applied(
            scope@,
            fuel as nat,
            deep(matches@),
            Seq::empty(),
            Seq::empty(),
            *old(counter),
            0,
        ),
    decreases fuel, 1int,
{
    let ghost goal = branches_applied(
        scope@,
        fuel as nat,
        deep(matches@),
        Seq::empty(),
        Seq::empty(),
        *counter,
        0,
    );
    let mut applied: Vec<RuleApplication> = Vec::new();
    let mut trivial: Vec<TrivialApplication> = Vec::new();
    let mut i: usize = 0;
    while i < matches.len()
        invariant
            i <= matches.len(),
            goal == branches_applied(
                scope@,
                fuel as nat,
                deep(matches@),
                Seq::empty(),
                Seq::empty(),
                *old(counter),
                0,
            ),
            goal == branches_applied(
                scope@,
                fuel as nat,
                deep(matches@),
                deep(applied@),
                deep(trivial@),
                *counter,
                i as int,
            ),
        decreases matches.len() - i,
    {
        assert(deep(matches@)[i as int] == matches[i as int]@);
        match apply_rule_with_match(scope, fuel, Some(matches[i].duplicate()), counter) {
            RuleAttempt::NotApplicable => {},
            RuleAttempt::Unified { applied: more, trivial: more_trivial } => {
                let mut more = more;
                let mut more_trivial = more_trivial;
                applied.append(&mut more);
                trivial.append(&mut more_trivial);
            },
            RuleAttempt::Indeterminate(reason) => {
                return RuleAttempt::Indeterminate(reason);
            },
        }
        i += 1;
    }
    combine(applied, trivial)
}

#[verifier::spinoff_prover]
fn apply_solutions<'a, K: Kernel, S: SmtSolver>(
    scope: &RuleScope<'a, K, S>,
    fuel: usize,
    solutions: &Vec<CollectionSolution>,
    remainder: &Vec<(Term, Term)>,
    inherited: &Vec<Predicate>,
    counter: &mut u64,
) -> (result: RuleAttempt)
    ensures
        (result@, *final(counter)) == solutions_applied(
            scope@,
            fuel as nat,
            deep(solutions@),
            deep(remainder@),
            deep(inherited@),
            Seq::empty(),
            Seq::empty(),
            *old(counter),
            0,
        ),
    decreases fuel, 1int,
{
    let ghost goal = solutions_applied(
        scope@,
        fuel as nat,
        deep(solutions@),
        deep(remainder@),
        deep(inherited@),
        Seq::empty(),
        Seq::empty(),
        *counter,
        0,
    );
    let mut applied: Vec<RuleApplication> = Vec::new();
    let mut trivial: Vec<TrivialApplication> = Vec::new();
    let mut i: usize = 0;
    while i < solutions.len()
        invariant
            i <= solutions.len(),
            goal == solutions_applied(
                scope@,
                fuel as nat,
                deep(solutions@),
                deep(remainder@),
                deep(inherited@),
                Seq::empty(),
                Seq::empty(),
                *old(counter),
                0,
            ),
            goal == solutions_applied(
                scope@,
                fuel as nat,
                deep(solutions@),
                deep(remainder@),
                deep(inherited@),
                deep(applied@),
                deep(trivial@),
                *counter,
                i as int,
            ),
        decreases solutions.len() - i,
    {
        assert(deep(solutions@)[i as int] == solutions[i as int]@);
        let matched = match_solution(scope, &solutions[i], remainder, inherited, counter);
        match apply_rule_with_match(scope, fuel, Some(matched), counter) {
            RuleAttempt::NotApplicable => {},
            RuleAttempt::Unified { applied: more, trivial: more_trivial } => {
                let mut more = more;
                let mut more_trivial = more_trivial;
                applied.append(&mut more);
                trivial.append(&mut more_trivial);
            },
            RuleAttempt::Indeterminate(reason) => {
                return RuleAttempt::Indeterminate(reason);
            },
        }
        i += 1;
    }
    combine(applied, trivial)
}

/// How often a match may be refined: no machine goes so deep.
pub const REFINEMENTS: usize = usize::MAX;

/// Apply a rule to a pattern.
pub(crate) fn apply_rule<'a, K: Kernel, S: SmtSolver>(
    scope: &RuleScope<'a, K, S>,
    counter: &mut u64,
) -> (result: RuleAttempt)
    ensures
        (result@, *final(counter)) == rule_applied(
            scope@,
            REFINEMENTS as nat,
            None,
            *old(counter),
        ),
{
    apply_rule_with_match(scope, REFINEMENTS, None, counter)
}

} // verus!
