//! What terms, predicates and the conditions of equations simplify to.
//!
//! They are simplified by one another. Every function takes `fuel`, which bounds how deeply the
//! functions call one another: where it is used up, the iterations count as used up.

use vstd::prelude::*;
use crate::construct::evaluated;
use crate::definition::BackendDefinition;
use crate::equations::{
    alternatives_of, condition_decided, conjuncts_of, effect_term, ensures_decided,
    equation_matched, first_term, groups_for, match_accepted, match_conditions, predicate_matched,
    with_constraints, EquationAlternativeV, EquationMatchV,
};
use crate::index::unique_from;
use crate::kernel::{BuiltinResultV, Kernel, UnsupportedHookReasonV};
use crate::normalize::{hooked_normalized, injection_normalized, normalized};
use crate::ops::children;
use crate::path::{
    conjunctive_equalities, path_applied, replacements_of, PathConditionReplacementsV,
};
use crate::model::deep;
use crate::predicate::PredicateV;
use crate::predicates::predicates_substituted;
use crate::rebuild::with_children;
use crate::rule::{index_of, GroupsV, PredicateRewriteRuleV, RewriteRuleV, RuleRhsV};
use crate::simplify_parts::{
    assumed, budget_spent, builtin_outcome, builtin_simplification, ceil_expanded, equation_outcome,
    irreducible, joined, live_with, strict_scope, surrounding_equalities, surrounding_predicates,
    tidy_parts, unchanged, AssumptionsV, Environment, EquationAttempt, GroupScan, ScopeV,
};
use crate::simplify_types::{EnsuresVerdictV, RuleConditionV, SimplificationErrorV, SimplificationV};
use crate::solver::SmtSolver;
use crate::substitution::SubstitutionV;
use crate::term::TermV;

verus! {

/// The outcome of simplifying a term.
pub type TermOutcome = Result<SimplificationV, SimplificationErrorV>;

/// The outcome of simplifying a predicate.
pub type PredicateOutcome = Result<PredicateV, SimplificationErrorV>;

/// The outcome of simplifying a conjunction.
pub type PredicatesOutcome = Result<Seq<PredicateV>, SimplificationErrorV>;

// ---------------------------------------------------------------------------------------------
// Terms
// ---------------------------------------------------------------------------------------------
/// What a term simplifies to: its children, then the term itself, over and over, until nothing
/// changes any more, the term is evaluated, or the iterations are used up. `before` is what was
/// done before.
#[verifier::opaque]
pub open spec fn term_simplified<'a, K: Kernel, S: SmtSolver>(
    environment: Environment<'a, K, S>,
    fuel: nat,
    term: TermV,
    before: SimplificationV,
    path: PathConditionReplacementsV,
    scope: ScopeV,
    remaining: usize,
) -> TermOutcome
    decreases fuel, 30int, remaining,
{
    let term = path_applied(path, term);
    if evaluated(term) {
        Ok(SimplificationV { term, ..before })
    } else {
        match children_simplified(environment, fuel, term, path, scope, remaining) {
            Err(error) => Err(error),
            Ok(inner) => match root_simplified(environment, fuel, inner.term, strict_scope(scope)) {
                Err(error) => Err(error),
                Ok(root) => {
                    let reached = joined(joined(before, inner), root);
                    if root.term == inner.term || evaluated(root.term) {
                        Ok(reached)
                    } else if remaining == 0 {
                        budget_spent(scope.options, reached)
                    } else if reached.exhausted is Some {
                        Ok(reached)
                    } else {
                        term_simplified(
                            environment,
                            fuel,
                            root.term,
                            reached,
                            path,
                            scope,
                            (remaining - 1) as usize,
                        )
                    }
                },
            },
        }
    }
}

/// What a subterm simplifies to.
#[verifier::opaque]
pub open spec fn subterm_simplified<'a, K: Kernel, S: SmtSolver>(
    environment: Environment<'a, K, S>,
    fuel: nat,
    term: TermV,
    path: PathConditionReplacementsV,
    scope: ScopeV,
    remaining: usize,
) -> TermOutcome
    decreases fuel, 0int, 0int,
{
    if fuel == 0 {
        budget_spent(scope.options, unchanged(term))
    } else {
        term_simplified(
            environment,
            (fuel - 1) as nat,
            term,
            unchanged(term),
            path,
            scope,
            remaining,
        )
    }
}

/// `kids` with what the children of `term` from `from` on simplify to, and what was done.
#[verifier::opaque]
pub open spec fn kids_simplified<'a, K: Kernel, S: SmtSolver>(
    environment: Environment<'a, K, S>,
    fuel: nat,
    term: TermV,
    from: int,
    kids: Seq<TermV>,
    before: SimplificationV,
    path: PathConditionReplacementsV,
    scope: ScopeV,
    remaining: usize,
) -> Result<(Seq<TermV>, SimplificationV), SimplificationErrorV>
    decreases fuel, 20int, children(term).len() - from,
{
    if 0 <= from < children(term).len() {
        match subterm_simplified(
            environment,
            fuel,
            children(term)[from],
            path,
            scope,
            remaining,
        ) {
            Err(error) => Err(error),
            Ok(kid) => kids_simplified(
                environment,
                fuel,
                term,
                from + 1,
                kids.push(kid.term),
                joined(before, kid),
                path,
                scope,
                remaining,
            ),
        }
    } else {
        Ok((kids, before))
    }
}

/// What a term with simplified children is. A side of a conjunction that an equation makes top is
/// dropped. Every child has all of the remaining iterations.
#[verifier::opaque]
pub open spec fn children_simplified<'a, K: Kernel, S: SmtSolver>(
    environment: Environment<'a, K, S>,
    fuel: nat,
    term: TermV,
    path: PathConditionReplacementsV,
    scope: ScopeV,
    remaining: usize,
) -> TermOutcome
    decreases fuel, 25int, 0int,
{
    match term {
        TermV::DomainValue { .. } => Ok(unchanged(term)),
        TermV::Variable(_) => Ok(unchanged(term)),
        TermV::And(left, right) => match (
            top_equation(environment, fuel, *left, strict_scope(scope)),
            top_equation(environment, fuel, *right, strict_scope(scope)),
        ) {
            (Err(error), _) => Err(error),
            (Ok(_), Err(error)) => Err(error),
            (Ok(Some(rule_id)), Ok(Some(_))) => Err(
                SimplificationErrorV::TopEquationOutsideConjunction { rule_id },
            ),
            (Ok(Some(rule_id)), Ok(None)) => retained_side(
                subterm_simplified(environment, fuel, *right, path, scope, remaining),
                rule_id,
            ),
            (Ok(None), Ok(Some(rule_id))) => retained_side(
                subterm_simplified(environment, fuel, *left, path, scope, remaining),
                rule_id,
            ),
            (Ok(None), Ok(None)) => rebuilt(
                term,
                kids_simplified(
                    environment,
                    fuel,
                    term,
                    0,
                    Seq::empty(),
                    unchanged(term),
                    path,
                    scope,
                    remaining,
                ),
            ),
        },
        _ => rebuilt(
            term,
            kids_simplified(
                environment,
                fuel,
                term,
                0,
                Seq::empty(),
                unchanged(term),
                path,
                scope,
                remaining,
            ),
        ),
    }
}

/// The side of a conjunction that is kept.
pub open spec fn retained_side(side: TermOutcome, rule_id: Seq<char>) -> TermOutcome {
    match side {
        Err(error) => Err(error),
        Ok(kept) => Ok(
            SimplificationV { applied_rules: kept.applied_rules.push(rule_id), ..kept },
        ),
    }
}

/// `term` with simplified children.
pub open spec fn rebuilt(
    term: TermV,
    kids: Result<(Seq<TermV>, SimplificationV), SimplificationErrorV>,
) -> TermOutcome {
    match kids {
        Err(error) => Err(error),
        Ok((kids, done)) => Ok(SimplificationV { term: with_children(term, kids), ..done }),
    }
}

/// The rule by which `term` is top, where there is one.
#[verifier::opaque]
pub open spec fn top_equation<'a, K: Kernel, S: SmtSolver>(
    environment: Environment<'a, K, S>,
    fuel: nat,
    term: TermV,
    scope: ScopeV,
) -> Result<Option<Seq<char>>, SimplificationErrorV>
    decreases fuel, 22int, 0int,
{
    top_equation_in_groups(
        environment,
        fuel,
        groups_for(environment.definition.simplification_theory@, index_of(term)),
        term,
        scope,
        0,
    )
}

/// [`top_equation_in_rules`] in the groups from `from` on.
#[verifier::opaque]
pub open spec fn top_equation_in_groups<'a, K: Kernel, S: SmtSolver>(
    environment: Environment<'a, K, S>,
    fuel: nat,
    groups: GroupsV,
    term: TermV,
    scope: ScopeV,
    from: int,
) -> Result<Option<Seq<char>>, SimplificationErrorV>
    decreases fuel, 21int, groups.len() - from,
{
    if 0 <= from < groups.len() {
        match top_equation_in_rules(environment, fuel, groups[from].1, term, scope, 0) {
            Ok(None) => top_equation_in_groups(environment, fuel, groups, term, scope, from + 1),
            other => other,
        }
    } else {
        Ok(None)
    }
}

/// The first rule from `from` on with top on its right-hand side that matches `term` and whose
/// condition holds.
#[verifier::opaque]
pub open spec fn top_equation_in_rules<'a, K: Kernel, S: SmtSolver>(
    environment: Environment<'a, K, S>,
    fuel: nat,
    rules: Seq<RewriteRuleV>,
    term: TermV,
    scope: ScopeV,
    from: int,
) -> Result<Option<Seq<char>>, SimplificationErrorV>
    decreases fuel, 15int, rules.len() - from,
{
    if 0 <= from < rules.len() {
        let rule = rules[from];
        let next = top_equation_in_rules(environment, fuel, rules, term, scope, from + 1);
        if !(rule.rhs is Top) {
            next
        } else {
            match equation_matched(environment.definition, rule.lhs, term) {
                EquationMatchV::Found(substitution) => if !match_accepted(rule, substitution) {
                    next
                } else {
                    match condition_evaluated(
                        environment,
                        fuel,
                        rule.attributes.unique_id,
                        Some(term),
                        match_conditions(*environment.definition, rule.requires, substitution),
                        scope,
                    ) {
                        Err(error) => Err(error),
                        Ok(RuleConditionV::Satisfied) => Ok(Some(rule.attributes.unique_id)),
                        Ok(_) => next,
                    }
                },
                _ => next,
            }
        }
    } else {
        Ok(None)
    }
}

/// What a term simplifies to by itself: a builtin function first, then function equations, then
/// simplification equations.
#[verifier::opaque]
pub open spec fn root_simplified<'a, K: Kernel, S: SmtSolver>(
    environment: Environment<'a, K, S>,
    fuel: nat,
    term: TermV,
    scope: ScopeV,
) -> TermOutcome
    decreases fuel, 25int, 0int,
{
    match builtin_outcome(*environment.definition, term) {
        Err(error) => Err(SimplificationErrorV::Builtin(error)),
        Ok(BuiltinResultV::Value(value)) => Ok(
            builtin_simplification(term, value, Seq::empty(), Seq::empty()),
        ),
        Ok(BuiltinResultV::Bottom) => Ok(
            builtin_simplification(term, term, seq![PredicateV::False], Seq::empty()),
        ),
        Ok(BuiltinResultV::Effect(effect)) => match effect_term(*environment.definition, term) {
            Err(error) => Err(error),
            Ok(result) => Ok(builtin_simplification(term, result, Seq::empty(), seq![effect])),
        },
        Ok(BuiltinResultV::NotApplicable) => equations_applied(
            environment,
            fuel,
            term,
            None,
            scope,
        ),
        Ok(BuiltinResultV::Unsupported(reason)) => equations_applied(
            environment,
            fuel,
            term,
            Some(reason),
            scope,
        ),
    }
}

/// What equations make of a term.
#[verifier::opaque]
pub open spec fn equations_applied<'a, K: Kernel, S: SmtSolver>(
    environment: Environment<'a, K, S>,
    fuel: nat,
    term: TermV,
    unsupported: Option<UnsupportedHookReasonV>,
    scope: ScopeV,
) -> TermOutcome
    decreases fuel, 22int, 0int,
{
    match theory_applied(
        environment,
        fuel,
        groups_for(environment.definition.function_theory@, index_of(term)),
        true,
        term,
        scope,
        0,
    ) {
        Err(error) => Err(error),
        Ok(Some(result)) => Ok(result),
        Ok(None) => match theory_applied(
            environment,
            fuel,
            groups_for(environment.definition.simplification_theory@, index_of(term)),
            false,
            term,
            scope,
            0,
        ) {
            Err(error) => Err(error),
            Ok(Some(result)) => Ok(result),
            Ok(None) => irreducible(*environment.definition, term, unsupported),
        },
    }
}

/// What the first applicable equation of the groups from `from` on makes of a term. Where `block`
/// holds, an equation that may apply keeps those of later groups from applying.
#[verifier::opaque]
pub open spec fn theory_applied<'a, K: Kernel, S: SmtSolver>(
    environment: Environment<'a, K, S>,
    fuel: nat,
    groups: GroupsV,
    block: bool,
    term: TermV,
    scope: ScopeV,
    from: int,
) -> Result<Option<SimplificationV>, SimplificationErrorV>
    decreases fuel, 21int, groups.len() - from,
{
    if 0 <= from < groups.len() {
        match group_scanned(environment, fuel, groups[from].1, false, term, scope, 0) {
            Err(error) => Err(error),
            Ok(GroupScan::Applied(result)) => Ok(Some(result)),
            Ok(GroupScan::Blocked) => if block {
                Ok(None)
            } else {
                theory_applied(environment, fuel, groups, block, term, scope, from + 1)
            },
            Ok(GroupScan::NotApplicable) => theory_applied(
                environment,
                fuel,
                groups,
                block,
                term,
                scope,
                from + 1,
            ),
        }
    } else {
        Ok(None)
    }
}

/// What trying the equations from `from` on gives. `open` says whether an earlier one may apply.
#[verifier::opaque]
pub open spec fn group_scanned<'a, K: Kernel, S: SmtSolver>(
    environment: Environment<'a, K, S>,
    fuel: nat,
    rules: Seq<RewriteRuleV>,
    open: bool,
    term: TermV,
    scope: ScopeV,
    from: int,
) -> Result<GroupScan<SimplificationV>, SimplificationErrorV>
    decreases fuel, 15int, rules.len() - from,
{
    if 0 <= from < rules.len() {
        match equation_applied(environment, fuel, rules[from], term, scope) {
            Err(error) => Err(error),
            Ok(EquationAttempt::Applied(result)) => Ok(GroupScan::Applied(result)),
            Ok(EquationAttempt::Indeterminate) => group_scanned(
                environment,
                fuel,
                rules,
                true,
                term,
                scope,
                from + 1,
            ),
            Ok(EquationAttempt::NotApplicable) => group_scanned(
                environment,
                fuel,
                rules,
                open,
                term,
                scope,
                from + 1,
            ),
        }
    } else if open {
        Ok(GroupScan::Blocked)
    } else {
        Ok(GroupScan::NotApplicable)
    }
}

/// What applying an equation to a term gives.
#[verifier::opaque]
pub open spec fn equation_applied<'a, K: Kernel, S: SmtSolver>(
    environment: Environment<'a, K, S>,
    fuel: nat,
    rule: RewriteRuleV,
    term: TermV,
    scope: ScopeV,
) -> Result<EquationAttempt<SimplificationV>, SimplificationErrorV>
    decreases fuel, 12int, 0int,
{
    match equation_matched(environment.definition, rule.lhs, term) {
        EquationMatchV::NotApplicable => Ok(EquationAttempt::NotApplicable),
        EquationMatchV::Indeterminate => Ok(EquationAttempt::Indeterminate),
        EquationMatchV::Found(substitution) => if !match_accepted(rule, substitution) {
            Ok(EquationAttempt::NotApplicable)
        } else {
            match condition_evaluated(
                environment,
                fuel,
                rule.attributes.unique_id,
                Some(term),
                match_conditions(*environment.definition, rule.requires, substitution),
                scope,
            ) {
                Err(error) => Err(error),
                Ok(RuleConditionV::Refuted) => Ok(EquationAttempt::NotApplicable),
                Ok(RuleConditionV::Indeterminate(_)) => Ok(EquationAttempt::Indeterminate),
                Ok(RuleConditionV::Satisfied) => match rule.rhs {
                    RuleRhsV::Top => Err(
                        SimplificationErrorV::TopEquationOutsideConjunction {
                            rule_id: rule.attributes.unique_id,
                        },
                    ),
                    RuleRhsV::Predicates(_) => Ok(EquationAttempt::NotApplicable),
                    _ => match alternatives_judged(
                        environment,
                        fuel,
                        rule,
                        term,
                        substitution,
                        alternatives_of(rule, term, substitution),
                        Seq::empty(),
                        scope,
                        0,
                    ) {
                        Err(error) => Err(error),
                        Ok(live) => equation_outcome(rule, term, live),
                    },
                },
            }
        },
    }
}

/// `live` with the outcomes from `from` on that are not refuted.
#[verifier::opaque]
pub open spec fn alternatives_judged<'a, K: Kernel, S: SmtSolver>(
    environment: Environment<'a, K, S>,
    fuel: nat,
    rule: RewriteRuleV,
    term: TermV,
    substitution: SubstitutionV,
    alternatives: Seq<EquationAlternativeV>,
    live: Seq<(TermV, Seq<PredicateV>)>,
    scope: ScopeV,
    from: int,
) -> Result<Seq<(TermV, Seq<PredicateV>)>, SimplificationErrorV>
    decreases fuel, 10int, alternatives.len() - from,
{
    if 0 <= from < alternatives.len() {
        match ensures_evaluated(
            environment,
            fuel,
            rule.attributes.unique_id,
            term,
            predicates_substituted(alternatives[from].ensures, substitution),
            scope,
        ) {
            Err(error) => Err(error),
            Ok(verdict) => alternatives_judged(
                environment,
                fuel,
                rule,
                term,
                substitution,
                alternatives,
                live_with(live, alternatives[from], rule.rhs is Disjunction, verdict),
                scope,
                from + 1,
            ),
        }
    } else {
        Ok(live)
    }
}

// ---------------------------------------------------------------------------------------------
// Conditions
// ---------------------------------------------------------------------------------------------
/// What the predicates of a rule on a subject simplify to. Those that are being simplified already
/// stay as they are.
#[verifier::opaque]
pub open spec fn rule_predicates_simplified<'a, K: Kernel, S: SmtSolver>(
    environment: Environment<'a, K, S>,
    fuel: nat,
    rule_id: Seq<char>,
    anchor: TermV,
    predicates: Seq<PredicateV>,
    scope: ScopeV,
) -> PredicatesOutcome
    decreases fuel, 0int, 0int,
{
    if scope.active.contains((rule_id, anchor)) {
        Ok(predicates)
    } else if fuel == 0 {
        Err(
            SimplificationErrorV::PredicateIterationLimit {
                limit: scope.options.max_iterations,
                predicate: PredicateV::And(predicates),
            },
        )
    } else {
        predicates_simplified(
            environment,
            (fuel - 1) as nat,
            predicates,
            ScopeV { active: scope.active.push((rule_id, anchor)), ..scope },
            scope.options.max_iterations,
        )
    }
}

/// The predicates of a rule on a subject as far as they could be simplified.
pub open spec fn rule_predicates_reduced<'a, K: Kernel, S: SmtSolver>(
    environment: Environment<'a, K, S>,
    fuel: nat,
    rule_id: Seq<char>,
    anchor: TermV,
    predicates: Seq<PredicateV>,
    scope: ScopeV,
) -> Seq<PredicateV>
    decreases fuel, 1int, 0int,
{
    match rule_predicates_simplified(environment, fuel, rule_id, anchor, predicates, scope) {
        Ok(simplified) => simplified,
        Err(_) => predicates,
    }
}

/// The condition of a rule as far as it could be simplified, which is tried where there is a
/// subject.
pub open spec fn condition_reduced<'a, K: Kernel, S: SmtSolver>(
    environment: Environment<'a, K, S>,
    fuel: nat,
    rule_id: Seq<char>,
    anchor: Option<TermV>,
    predicates: Seq<PredicateV>,
    scope: ScopeV,
) -> Seq<PredicateV>
    decreases fuel, 2int, 0int,
{
    match anchor {
        Some(anchor) => rule_predicates_reduced(
            environment,
            fuel,
            rule_id,
            anchor,
            predicates,
            scope,
        ),
        None => predicates,
    }
}

/// What is known of a rule's condition after it is simplified.
#[verifier::opaque]
pub open spec fn condition_evaluated<'a, K: Kernel, S: SmtSolver>(
    environment: Environment<'a, K, S>,
    fuel: nat,
    rule_id: Seq<char>,
    anchor: Option<TermV>,
    predicates: Seq<PredicateV>,
    scope: ScopeV,
) -> Result<RuleConditionV, SimplificationErrorV>
    decreases fuel, 5int, 0int,
{
    condition_decided(
        *environment.solver,
        rule_id,
        condition_reduced(environment, fuel, rule_id, anchor, predicates, scope),
        scope.known,
    )
}

/// What is known of what an equation ensures, after it is simplified.
#[verifier::opaque]
pub open spec fn ensures_evaluated<'a, K: Kernel, S: SmtSolver>(
    environment: Environment<'a, K, S>,
    fuel: nat,
    rule_id: Seq<char>,
    term: TermV,
    ensured: Seq<PredicateV>,
    scope: ScopeV,
) -> Result<EnsuresVerdictV, SimplificationErrorV>
    decreases fuel, 5int, 0int,
{
    ensures_decided(
        *environment.solver,
        rule_id,
        rule_predicates_reduced(environment, fuel, rule_id, term, ensured, scope),
        scope.known,
    )
}

// ---------------------------------------------------------------------------------------------
// Predicates
// ---------------------------------------------------------------------------------------------
/// What a conjunction of predicates simplifies to: each part under the assumption of the others,
/// over and over, until nothing changes any more or the iterations are used up.
#[verifier::opaque]
pub open spec fn predicates_simplified<'a, K: Kernel, S: SmtSolver>(
    environment: Environment<'a, K, S>,
    fuel: nat,
    predicates: Seq<PredicateV>,
    scope: ScopeV,
    remaining: usize,
) -> PredicatesOutcome
    decreases fuel, 60int, remaining,
{
    let parts = conjuncts_of(predicates);
    match parts_simplified(environment, fuel, parts, Seq::empty(), scope, remaining, 0) {
        Err(error) => Err(error),
        Ok(simplified) => {
            let tidied = tidy_parts(*environment.definition, simplified);
            if tidied == parts {
                Ok(tidied)
            } else if remaining == 0 {
                Err(
                    SimplificationErrorV::PredicateIterationLimit {
                        limit: scope.options.max_iterations,
                        predicate: PredicateV::And(tidied),
                    },
                )
            } else {
                predicates_simplified(
                    environment,
                    fuel,
                    tidied,
                    scope,
                    (remaining - 1) as usize,
                )
            }
        },
    }
}

/// What is assumed while the part at `current` of a conjunction is simplified.
pub open spec fn part_assumptions(
    parts: Seq<PredicateV>,
    known: Seq<PredicateV>,
    current: int,
) -> AssumptionsV {
    let known_parts = conjuncts_of(known);
    AssumptionsV {
        path: replacements_of(
            surrounding_equalities(
                conjunctive_equalities(known, Seq::empty(), 0),
                parts,
                known_parts,
                current,
                0,
            ),
        ),
        conjuncts: unique_from(known_parts, parts, 0),
        excluded: if known_parts.contains(parts[current]) {
            None
        } else {
            Some(parts[current])
        },
    }
}

/// The scope in which the part at `current` of a conjunction is simplified.
pub open spec fn part_scope(scope: ScopeV, parts: Seq<PredicateV>, current: int) -> ScopeV {
    ScopeV {
        known: surrounding_predicates(
            scope.known,
            parts,
            conjuncts_of(scope.known),
            current,
            0,
        ),
        ..scope
    }
}

/// `done` with what the parts from `from` on simplify to.
#[verifier::opaque]
pub open spec fn parts_simplified<'a, K: Kernel, S: SmtSolver>(
    environment: Environment<'a, K, S>,
    fuel: nat,
    parts: Seq<PredicateV>,
    done: Seq<PredicateV>,
    scope: ScopeV,
    remaining: usize,
    from: int,
) -> PredicatesOutcome
    decreases fuel, 59int, parts.len() - from,
{
    if 0 <= from < parts.len() {
        match predicate_simplified(
            environment,
            fuel,
            parts[from],
            part_assumptions(parts, scope.known, from),
            part_scope(scope, parts, from),
            remaining,
        ) {
            Err(error) => Err(error),
            Ok(predicate) => parts_simplified(
                environment,
                fuel,
                parts,
                done.push(predicate),
                scope,
                remaining,
                from + 1,
            ),
        }
    } else {
        Ok(done)
    }
}

/// `true` where `predicate` is assumed, `false` where its negation is.
pub open spec fn by_assumption(
    assumptions: AssumptionsV,
    predicate: PredicateV,
) -> Option<PredicateV> {
    if assumed(assumptions, predicate) {
        Some(PredicateV::True)
    } else if assumed(assumptions, PredicateV::Not(Box::new(predicate))) {
        Some(PredicateV::False)
    } else {
        None
    }
}

/// What a predicate simplifies to: its parts, its normal form, and then equations for definedness
/// and for predicates, over and over, until none applies or the iterations are used up.
#[verifier::opaque]
pub open spec fn predicate_simplified<'a, K: Kernel, S: SmtSolver>(
    environment: Environment<'a, K, S>,
    fuel: nat,
    predicate: PredicateV,
    assumptions: AssumptionsV,
    scope: ScopeV,
    remaining: usize,
) -> PredicateOutcome
    decreases fuel, 58int, remaining,
{
    match by_assumption(assumptions, predicate) {
        Some(constant) => Ok(constant),
        None => match predicate_inside_simplified(
            environment,
            fuel,
            predicate,
            assumptions,
            scope,
            remaining,
        ) {
            Err(error) => Err(error),
            Ok(inside) => {
                let simplified = normalized(hooked_normalized(*environment.definition, inside));
                match by_assumption(assumptions, simplified) {
                    Some(constant) => Ok(constant),
                    None => match predicate_equations_applied(
                        environment,
                        fuel,
                        simplified,
                        scope,
                    ) {
                        Err(error) => Err(error),
                        Ok(None) => Ok(simplified),
                        Ok(Some(next)) => if remaining == 0 {
                            Err(
                                SimplificationErrorV::PredicateIterationLimit {
                                    limit: scope.options.max_iterations,
                                    predicate: next,
                                },
                            )
                        } else {
                            predicate_simplified(
                                environment,
                                fuel,
                                next,
                                assumptions,
                                scope,
                                (remaining - 1) as usize,
                            )
                        },
                    },
                }
            },
        },
    }
}

/// What a predicate inside another one simplifies to.
#[verifier::opaque]
pub open spec fn inner_predicate_simplified<'a, K: Kernel, S: SmtSolver>(
    environment: Environment<'a, K, S>,
    fuel: nat,
    predicate: PredicateV,
    assumptions: AssumptionsV,
    scope: ScopeV,
    remaining: usize,
) -> PredicateOutcome
    decreases fuel, 0int, 0int,
{
    if fuel == 0 {
        Err(
            SimplificationErrorV::PredicateIterationLimit {
                limit: scope.options.max_iterations,
                predicate,
            },
        )
    } else {
        predicate_simplified(
            environment,
            (fuel - 1) as nat,
            predicate,
            assumptions,
            scope,
            remaining,
        )
    }
}

/// What a term inside a predicate simplifies to.
pub open spec fn inner_term_simplified<'a, K: Kernel, S: SmtSolver>(
    environment: Environment<'a, K, S>,
    fuel: nat,
    term: TermV,
    assumptions: AssumptionsV,
    scope: ScopeV,
    remaining: usize,
) -> TermOutcome
    decreases fuel, 1int, 0int,
{
    subterm_simplified(
        environment,
        fuel,
        term,
        assumptions.path,
        strict_scope(scope),
        remaining,
    )
}

/// What a conjunction inside a predicate simplifies to.
#[verifier::opaque]
pub open spec fn inner_conjunction_simplified<'a, K: Kernel, S: SmtSolver>(
    environment: Environment<'a, K, S>,
    fuel: nat,
    inner: Seq<PredicateV>,
    scope: ScopeV,
    remaining: usize,
) -> PredicatesOutcome
    decreases fuel, 0int, 0int,
{
    if fuel == 0 {
        Err(
            SimplificationErrorV::PredicateIterationLimit {
                limit: scope.options.max_iterations,
                predicate: PredicateV::And(inner),
            },
        )
    } else {
        predicates_simplified(environment, (fuel - 1) as nat, inner, scope, remaining)
    }
}

/// `done` with what the predicates from `from` on of a disjunction simplify to.
#[verifier::opaque]
pub open spec fn disjuncts_simplified<'a, K: Kernel, S: SmtSolver>(
    environment: Environment<'a, K, S>,
    fuel: nat,
    inner: Seq<PredicateV>,
    done: Seq<PredicateV>,
    assumptions: AssumptionsV,
    scope: ScopeV,
    remaining: usize,
    from: int,
) -> PredicatesOutcome
    decreases fuel, 40int, inner.len() - from,
{
    if 0 <= from < inner.len() {
        match inner_predicate_simplified(
            environment,
            fuel,
            inner[from],
            assumptions,
            scope,
            remaining,
        ) {
            Err(error) => Err(error),
            Ok(predicate) => disjuncts_simplified(
                environment,
                fuel,
                inner,
                done.push(predicate),
                assumptions,
                scope,
                remaining,
                from + 1,
            ),
        }
    } else {
        Ok(done)
    }
}

/// What an equality of simplified terms comes down to.
pub open spec fn equality_reduced<K: Kernel>(
    definition: BackendDefinition<K>,
    left: SimplificationV,
    right: SimplificationV,
) -> PredicateV {
    with_constraints(
        left.constraints + right.constraints,
        injection_normalized(
            definition,
            hooked_normalized(definition, PredicateV::Equals(left.term, right.term)),
        ),
    )
}

/// A predicate with simplified parts.
#[verifier::opaque]
pub open spec fn predicate_inside_simplified<'a, K: Kernel, S: SmtSolver>(
    environment: Environment<'a, K, S>,
    fuel: nat,
    predicate: PredicateV,
    assumptions: AssumptionsV,
    scope: ScopeV,
    remaining: usize,
) -> PredicateOutcome
    decreases fuel, 50int, 0int,
{
    match predicate {
        PredicateV::True => Ok(PredicateV::True),
        PredicateV::False => Ok(PredicateV::False),
        PredicateV::Term(term) => match inner_term_simplified(
            environment,
            fuel,
            term,
            assumptions,
            scope,
            remaining,
        ) {
            Err(error) => Err(error),
            Ok(result) => Ok(
                with_constraints(result.constraints, PredicateV::Term(result.term)),
            ),
        },
        PredicateV::Ceil(term) => match inner_term_simplified(
            environment,
            fuel,
            term,
            assumptions,
            scope,
            remaining,
        ) {
            Err(error) => Err(error),
            Ok(result) => Ok(ceil_expanded(*environment.definition, result, assumptions)),
        },
        PredicateV::Floor(term) => match inner_term_simplified(
            environment,
            fuel,
            term,
            assumptions,
            scope,
            remaining,
        ) {
            Err(error) => Err(error),
            Ok(result) => Ok(
                with_constraints(result.constraints, PredicateV::Floor(result.term)),
            ),
        },
        PredicateV::Equals(left, right) => match (
            inner_term_simplified(environment, fuel, left, assumptions, scope, remaining),
            inner_term_simplified(environment, fuel, right, assumptions, scope, remaining),
        ) {
            (Err(error), _) => Err(error),
            (Ok(_), Err(error)) => Err(error),
            (Ok(left), Ok(right)) => Ok(
                equality_reduced(*environment.definition, left, right),
            ),
        },
        PredicateV::In(left, right) => match (
            inner_term_simplified(environment, fuel, left, assumptions, scope, remaining),
            inner_term_simplified(environment, fuel, right, assumptions, scope, remaining),
        ) {
            (Err(error), _) => Err(error),
            (Ok(_), Err(error)) => Err(error),
            (Ok(left), Ok(right)) => Ok(
                with_constraints(
                    left.constraints + right.constraints,
                    PredicateV::In(left.term, right.term),
                ),
            ),
        },
        PredicateV::Not(inner) => match inner_predicate_simplified(
            environment,
            fuel,
            *inner,
            assumptions,
            scope,
            remaining,
        ) {
            Err(error) => Err(error),
            Ok(inner) => Ok(PredicateV::Not(Box::new(inner))),
        },
        PredicateV::And(inner) => match inner_conjunction_simplified(
            environment,
            fuel,
            inner,
            scope,
            remaining,
        ) {
            Err(error) => Err(error),
            Ok(inner) => Ok(PredicateV::And(inner)),
        },
        PredicateV::Or(inner) => match disjuncts_simplified(
            environment,
            fuel,
            inner,
            Seq::empty(),
            assumptions,
            scope,
            remaining,
            0,
        ) {
            Err(error) => Err(error),
            Ok(inner) => Ok(PredicateV::Or(inner)),
        },
        PredicateV::Implies(left, right) => match (
            inner_predicate_simplified(environment, fuel, *left, assumptions, scope, remaining),
            inner_predicate_simplified(environment, fuel, *right, assumptions, scope, remaining),
        ) {
            (Err(error), _) => Err(error),
            (Ok(_), Err(error)) => Err(error),
            (Ok(left), Ok(right)) => Ok(PredicateV::Implies(Box::new(left), Box::new(right))),
        },
        PredicateV::Iff(left, right) => match (
            inner_predicate_simplified(environment, fuel, *left, assumptions, scope, remaining),
            inner_predicate_simplified(environment, fuel, *right, assumptions, scope, remaining),
        ) {
            (Err(error), _) => Err(error),
            (Ok(_), Err(error)) => Err(error),
            (Ok(left), Ok(right)) => Ok(PredicateV::Iff(Box::new(left), Box::new(right))),
        },
        PredicateV::Exists(variable, inner) => match inner_predicate_simplified(
            environment,
            fuel,
            *inner,
            assumptions,
            scope,
            remaining,
        ) {
            Err(error) => Err(error),
            Ok(inner) => Ok(PredicateV::Exists(variable, Box::new(inner))),
        },
        PredicateV::Forall(variable, inner) => match inner_predicate_simplified(
            environment,
            fuel,
            *inner,
            assumptions,
            scope,
            remaining,
        ) {
            Err(error) => Err(error),
            Ok(inner) => Ok(PredicateV::Forall(variable, Box::new(inner))),
        },
    }
}

/// What an equation for definedness, else one for predicates, makes of a predicate.
#[verifier::opaque]
pub open spec fn predicate_equations_applied<'a, K: Kernel, S: SmtSolver>(
    environment: Environment<'a, K, S>,
    fuel: nat,
    predicate: PredicateV,
    scope: ScopeV,
) -> Result<Option<PredicateV>, SimplificationErrorV>
    decreases fuel, 30int, 0int,
{
    match ceil_theory_applied(environment, fuel, predicate, strict_scope(scope)) {
        Err(error) => Err(error),
        Ok(Some(next)) => Ok(Some(next)),
        Ok(None) => predicate_theory_applied(
            environment,
            fuel,
            deep(environment.definition.predicate_simplification_theory@),
            predicate,
            strict_scope(scope),
            0,
        ),
    }
}

/// What an equation for definedness makes of a predicate.
#[verifier::opaque]
pub open spec fn ceil_theory_applied<'a, K: Kernel, S: SmtSolver>(
    environment: Environment<'a, K, S>,
    fuel: nat,
    predicate: PredicateV,
    scope: ScopeV,
) -> Result<Option<PredicateV>, SimplificationErrorV>
    decreases fuel, 22int, 0int,
{
    match predicate {
        PredicateV::Ceil(term) => ceil_groups_applied(
            environment,
            fuel,
            groups_for(environment.definition.ceil_theory@, index_of(term)),
            term,
            scope,
            0,
        ),
        _ => Ok(None),
    }
}

/// What an equation for definedness of the groups from `from` on makes of the definedness of a
/// term.
#[verifier::opaque]
pub open spec fn ceil_groups_applied<'a, K: Kernel, S: SmtSolver>(
    environment: Environment<'a, K, S>,
    fuel: nat,
    groups: GroupsV,
    term: TermV,
    scope: ScopeV,
    from: int,
) -> Result<Option<PredicateV>, SimplificationErrorV>
    decreases fuel, 21int, groups.len() - from,
{
    if 0 <= from < groups.len() {
        match ceil_group_scanned(environment, fuel, groups[from].1, false, term, scope, 0) {
            Err(error) => Err(error),
            Ok(GroupScan::Applied(result)) => Ok(Some(result)),
            Ok(GroupScan::Blocked) => Ok(None),
            Ok(GroupScan::NotApplicable) => ceil_groups_applied(
                environment,
                fuel,
                groups,
                term,
                scope,
                from + 1,
            ),
        }
    } else {
        Ok(None)
    }
}

/// What trying the equations for definedness from `from` on gives.
#[verifier::opaque]
pub open spec fn ceil_group_scanned<'a, K: Kernel, S: SmtSolver>(
    environment: Environment<'a, K, S>,
    fuel: nat,
    rules: Seq<RewriteRuleV>,
    open: bool,
    term: TermV,
    scope: ScopeV,
    from: int,
) -> Result<GroupScan<PredicateV>, SimplificationErrorV>
    decreases fuel, 15int, rules.len() - from,
{
    if 0 <= from < rules.len() {
        match ceil_equation_applied(environment, fuel, rules[from], term, scope) {
            Err(error) => Err(error),
            Ok(EquationAttempt::Applied(result)) => Ok(GroupScan::Applied(result)),
            Ok(EquationAttempt::Indeterminate) => ceil_group_scanned(
                environment,
                fuel,
                rules,
                true,
                term,
                scope,
                from + 1,
            ),
            Ok(EquationAttempt::NotApplicable) => ceil_group_scanned(
                environment,
                fuel,
                rules,
                open,
                term,
                scope,
                from + 1,
            ),
        }
    } else if open {
        Ok(GroupScan::Blocked)
    } else {
        Ok(GroupScan::NotApplicable)
    }
}

/// What applying an equation for definedness gives.
#[verifier::opaque]
pub open spec fn ceil_equation_applied<'a, K: Kernel, S: SmtSolver>(
    environment: Environment<'a, K, S>,
    fuel: nat,
    rule: RewriteRuleV,
    term: TermV,
    scope: ScopeV,
) -> Result<EquationAttempt<PredicateV>, SimplificationErrorV>
    decreases fuel, 12int, 0int,
{
    match equation_matched(environment.definition, rule.lhs, term) {
        EquationMatchV::NotApplicable => Ok(EquationAttempt::NotApplicable),
        EquationMatchV::Indeterminate => Ok(EquationAttempt::Indeterminate),
        EquationMatchV::Found(substitution) => if !match_accepted(rule, substitution) {
            Ok(EquationAttempt::NotApplicable)
        } else {
            match condition_evaluated(
                environment,
                fuel,
                rule.attributes.unique_id,
                Some(term),
                match_conditions(*environment.definition, rule.requires, substitution),
                scope,
            ) {
                Err(error) => Err(error),
                Ok(RuleConditionV::Refuted) => Ok(EquationAttempt::NotApplicable),
                Ok(RuleConditionV::Indeterminate(_)) => Ok(EquationAttempt::Indeterminate),
                Ok(RuleConditionV::Satisfied) => match rule.rhs {
                    RuleRhsV::Predicates(rhs) => Ok(
                        EquationAttempt::Applied(
                            normalized(
                                PredicateV::And(predicates_substituted(rhs, substitution)),
                            ),
                        ),
                    ),
                    _ => Ok(EquationAttempt::NotApplicable),
                },
            }
        },
    }
}

/// What an equation between predicates of the groups from `from` on makes of a predicate.
#[verifier::opaque]
pub open spec fn predicate_theory_applied<'a, K: Kernel, S: SmtSolver>(
    environment: Environment<'a, K, S>,
    fuel: nat,
    groups: Seq<(u8, Seq<PredicateRewriteRuleV>)>,
    predicate: PredicateV,
    scope: ScopeV,
    from: int,
) -> Result<Option<PredicateV>, SimplificationErrorV>
    decreases fuel, 21int, groups.len() - from,
{
    if 0 <= from < groups.len() {
        match predicate_group_scanned(
            environment,
            fuel,
            groups[from].1,
            false,
            predicate,
            scope,
            0,
        ) {
            Err(error) => Err(error),
            Ok(GroupScan::Applied(result)) => Ok(Some(result)),
            Ok(GroupScan::Blocked) => Ok(None),
            Ok(GroupScan::NotApplicable) => predicate_theory_applied(
                environment,
                fuel,
                groups,
                predicate,
                scope,
                from + 1,
            ),
        }
    } else {
        Ok(None)
    }
}

/// What trying the equations between predicates from `from` on gives.
#[verifier::opaque]
pub open spec fn predicate_group_scanned<'a, K: Kernel, S: SmtSolver>(
    environment: Environment<'a, K, S>,
    fuel: nat,
    rules: Seq<PredicateRewriteRuleV>,
    open: bool,
    predicate: PredicateV,
    scope: ScopeV,
    from: int,
) -> Result<GroupScan<PredicateV>, SimplificationErrorV>
    decreases fuel, 15int, rules.len() - from,
{
    if 0 <= from < rules.len() {
        match predicate_equation_applied(environment, fuel, rules[from], predicate, scope) {
            Err(error) => Err(error),
            Ok(EquationAttempt::Applied(result)) => Ok(GroupScan::Applied(result)),
            Ok(EquationAttempt::Indeterminate) => predicate_group_scanned(
                environment,
                fuel,
                rules,
                true,
                predicate,
                scope,
                from + 1,
            ),
            Ok(EquationAttempt::NotApplicable) => predicate_group_scanned(
                environment,
                fuel,
                rules,
                open,
                predicate,
                scope,
                from + 1,
            ),
        }
    } else if open {
        Ok(GroupScan::Blocked)
    } else {
        Ok(GroupScan::NotApplicable)
    }
}

/// What applying an equation between predicates gives.
#[verifier::opaque]
pub open spec fn predicate_equation_applied<'a, K: Kernel, S: SmtSolver>(
    environment: Environment<'a, K, S>,
    fuel: nat,
    rule: PredicateRewriteRuleV,
    predicate: PredicateV,
    scope: ScopeV,
) -> Result<EquationAttempt<PredicateV>, SimplificationErrorV>
    decreases fuel, 12int, 0int,
{
    match predicate_matched(environment.definition, rule.lhs, predicate) {
        EquationMatchV::NotApplicable => Ok(EquationAttempt::NotApplicable),
        EquationMatchV::Indeterminate => Ok(EquationAttempt::Indeterminate),
        EquationMatchV::Found(substitution) => match condition_evaluated(
            environment,
            fuel,
            rule.attributes.unique_id,
            first_term(predicate),
            match_conditions(*environment.definition, rule.requires, substitution),
            scope,
        ) {
            Err(error) => Err(error),
            Ok(RuleConditionV::Refuted) => Ok(EquationAttempt::NotApplicable),
            Ok(RuleConditionV::Indeterminate(_)) => Ok(EquationAttempt::Indeterminate),
            Ok(RuleConditionV::Satisfied) => Ok(
                EquationAttempt::Applied(
                    normalized(PredicateV::And(predicates_substituted(rule.rhs, substitution))),
                ),
            ),
        },
    }
}

} // verus!
