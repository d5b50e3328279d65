//! Recursive equation simplification to a bounded fixed point.

use vstd::prelude::*;
use crate::definition::BackendDefinition;
use crate::diagnostic::told;
use crate::equations::{
    accepts_match, applicable_groups, builtin_effect_result, condition_doubt, conjuncts_of,
    decide_condition, decide_ensures, equation_alternatives, equation_match_conditions,
    first_predicate_term, match_equation, match_predicate, predicate_conjunct_index,
    with_simplification_constraints, EquationAlternative, EquationMatch,
};
use crate::index::{unique_from, PredicateIndex};
use crate::kernel::{result_view, BuiltinEffect, BuiltinResult, Kernel, UnsupportedHookReason};
use crate::model::{contains, deep, group_deep, Value};
use crate::normalize::{
    normalize_hooked_boolean_predicate, normalize_injection_equality, normalize_predicate,
};
use crate::ops::children;
use crate::path::PathConditionReplacements;
use crate::predicate::{lemma_predicate_view, Predicate, PredicateV};
use crate::predicates::substitute_predicates;
use crate::rebuild::with_children;
use crate::rule::{term_index, PredicateRewriteRule, RewriteRule, RuleRhs};
use crate::simplify_parts::{
    add_live, assumed, attempted, collect_surrounding_equalities, collect_surrounding_predicates,
    conclude_equation, expand_ceil, hooked, join, leave, leave_irreducible, make_strict, scan_view,
    spend_budget, tidy, unchanged, Assumptions, Environment, EquationAttempt, GroupScan, Scope,
};
use crate::simplify_spec::{
    alternatives_judged, by_assumption, ceil_equation_applied, ceil_group_scanned,
    ceil_groups_applied, ceil_theory_applied, children_simplified, condition_evaluated,
    condition_reduced, disjuncts_simplified, ensures_evaluated, equality_reduced, equation_applied,
    equations_applied, group_scanned, inner_conjunction_simplified, inner_predicate_simplified,
    inner_term_simplified, kids_simplified, parts_simplified, predicate_equation_applied,
    predicate_equations_applied, predicate_group_scanned, predicate_inside_simplified,
    predicate_simplified, predicate_theory_applied, predicates_simplified, rebuilt, retained_side,
    root_simplified, rule_predicates_simplified, subterm_simplified, term_simplified,
    theory_applied, top_equation, top_equation_in_groups, top_equation_in_rules,
};
use crate::simplify_types::{EnsuresVerdict, RuleCondition, Simplification, SimplificationError};
use crate::solver::SmtSolver;
use crate::substitution::Substitution;
use crate::term::{lemma_term_view, Term};

verus! {

broadcast use group_deep;

// ---------------------------------------------------------------------------------------------
// Terms
// ---------------------------------------------------------------------------------------------
#[verifier::spinoff_prover]
pub(crate) fn simplify_with_budget<'a, 'b, K: Kernel, S: SmtSolver>(
    environment: &Environment<'a, K, S>,
    fuel: usize,
    term: &Term,
    path: &PathConditionReplacements,
    scope: &Scope<'b>,
    iterations: usize,
) -> (result: Result<Simplification, SimplificationError>)
    ensures
        result_view(result) == term_simplified(
            *environment,
            fuel as nat,
            term@,
            unchanged(term@),
            path@,
            scope@,
            iterations,
        ),
    decreases fuel, 30int, 0int,
{
    let ghost goal = term_simplified(
        *environment,
        fuel as nat,
        term@,
        unchanged(term@),
        path@,
        scope@,
        iterations,
    );
    let mut before = leave(term.duplicate());
    let mut current = term.duplicate();
    let mut remaining: usize = iterations;
    loop
        invariant
            goal == term_simplified(
                *environment,
                fuel as nat,
                term@,
                unchanged(term@),
                path@,
                scope@,
                iterations,
            ),
            goal == term_simplified(
                *environment,
                fuel as nat,
                current@,
                before@,
                path@,
                scope@,
                remaining,
            ),
        decreases remaining,
    {
        reveal(term_simplified);
        let term = path.apply(&current);
        if term.is_evaluated() {
            return Ok(Simplification { term, ..before });
        }
        let inner = match simplify_children(environment, fuel, &term, path, scope, remaining) {
            Ok(inner) => inner,
            Err(error) => {
                return Err(error);
            },
        };
        let root = match simplify_root(environment, fuel, &inner.term, &make_strict(scope)) {
            Ok(root) => root,
            Err(error) => {
                return Err(error);
            },
        };
        let settled: bool = root.term.equals(&inner.term) || root.term.is_evaluated();
        let reached = join(join(before, inner), root);
        if settled {
            return Ok(reached);
        }
        if remaining == 0 {
            return spend_budget(scope.options, reached);
        }
        if reached.exhausted.is_some() {
            return Ok(reached);
        }
        remaining = remaining - 1;
        current = reached.term.duplicate();
        before = reached;
    }
}

#[verifier::spinoff_prover]
fn simplify_subterm<'a, 'b, K: Kernel, S: SmtSolver>(
    environment: &Environment<'a, K, S>,
    fuel: usize,
    term: &Term,
    path: &PathConditionReplacements,
    scope: &Scope<'b>,
    remaining: usize,
) -> (result: Result<Simplification, SimplificationError>)
    ensures
        result_view(result) == subterm_simplified(
            *environment,
            fuel as nat,
            term@,
            path@,
            scope@,
            remaining,
        ),
    decreases fuel, 0int, 0int,
{
    reveal(subterm_simplified);
    if fuel == 0 {
        return spend_budget(scope.options, leave(term.duplicate()));
    }
    simplify_with_budget(environment, fuel - 1, term, path, scope, remaining)
}

#[verifier::spinoff_prover]
fn simplify_kids<'a, 'b, K: Kernel, S: SmtSolver>(
    environment: &Environment<'a, K, S>,
    fuel: usize,
    term: &Term,
    path: &PathConditionReplacements,
    scope: &Scope<'b>,
    remaining: usize,
) -> (result: Result<Simplification, SimplificationError>)
    ensures
        result_view(result) == rebuilt(
            term@,
            kids_simplified(
                *environment,
                fuel as nat,
                term@,
                0,
                Seq::empty(),
                unchanged(term@),
                path@,
                scope@,
                remaining,
            ),
        ),
    decreases fuel, 20int, 0int,
{
    let kids: Vec<&Term> = term.children();
    let mut simplified: Vec<Term> = Vec::new();
    let mut before = leave(term.duplicate());
    let ghost goal = kids_simplified(
        *environment,
        fuel as nat,
        term@,
        0,
        Seq::empty(),
        unchanged(term@),
        path@,
        scope@,
        remaining,
    );
    let mut i: usize = 0;
    while i < kids.len()
        invariant
            i <= kids.len(),
            simplified.len() == i,
            deep(kids@) == children(term@),
            goal == kids_simplified(
                *environment,
                fuel as nat,
                term@,
                0,
                Seq::empty(),
                unchanged(term@),
                path@,
                scope@,
                remaining,
            ),
            goal == kids_simplified(
                *environment,
                fuel as nat,
                term@,
                i as int,
                deep(simplified@),
                before@,
                path@,
                scope@,
                remaining,
            ),
        decreases kids.len() - i,
    {
        reveal(kids_simplified);
        assert(children(term@)[i as int] == kids[i as int]@);
        match simplify_subterm(environment, fuel, kids[i], path, scope, remaining) {
            Ok(kid) => {
                simplified.push(kid.term.duplicate());
                before = join(before, kid);
            },
            Err(error) => {
                return Err(error);
            },
        }
        i += 1;
    }
    reveal(kids_simplified);
    Ok(Simplification { term: term.with_children(simplified), ..before })
}

#[verifier::spinoff_prover]
fn simplify_children<'a, 'b, K: Kernel, S: SmtSolver>(
    environment: &Environment<'a, K, S>,
    fuel: usize,
    term: &Term,
    path: &PathConditionReplacements,
    scope: &Scope<'b>,
    remaining: usize,
) -> (result: Result<Simplification, SimplificationError>)
    ensures
        result_view(result) == children_simplified(
            *environment,
            fuel as nat,
            term@,
            path@,
            scope@,
            remaining,
        ),
    decreases fuel, 25int, 0int,
{
    reveal(children_simplified);
    proof {
        lemma_term_view(*term);
    }
    match term {
        Term::DomainValue { .. } | Term::Variable(_) => Ok(leave(term.duplicate())),
        Term::And(left, right) => {
            let left_top = match matches_top_equation(environment, fuel, left, &make_strict(scope)) {
                Ok(found) => found,
                Err(error) => {
                    return Err(error);
                },
            };
            let right_top = match matches_top_equation(environment, fuel, right, &make_strict(scope)) {
                Ok(found) => found,
                Err(error) => {
                    return Err(error);
                },
            };
            match (left_top, right_top) {
                (Some(rule_id), Some(_)) => Err(
                    SimplificationError::TopEquationOutsideConjunction { rule_id },
                ),
                (Some(rule_id), None) => retain_side(
                    simplify_subterm(environment, fuel, right, path, scope, remaining),
                    rule_id,
                ),
                (None, Some(rule_id)) => retain_side(
                    simplify_subterm(environment, fuel, left, path, scope, remaining),
                    rule_id,
                ),
                (None, None) => simplify_kids(environment, fuel, term, path, scope, remaining),
            }
        },
        _ => simplify_kids(environment, fuel, term, path, scope, remaining),
    }
}

#[verifier::spinoff_prover]
fn retain_side(side: Result<Simplification, SimplificationError>, rule_id: String) -> (result:
    Result<Simplification, SimplificationError>)
    ensures
        result_view(result) == retained_side(result_view(side), rule_id@),
{
    match side {
        Ok(kept) => {
            let mut kept = kept;
            kept.applied_rules.push(rule_id);
            Ok(kept)
        },
        Err(error) => Err(error),
    }
}

#[verifier::spinoff_prover]
fn matches_top_equation<'a, 'b, K: Kernel, S: SmtSolver>(
    environment: &Environment<'a, K, S>,
    fuel: usize,
    term: &Term,
    scope: &Scope<'b>,
) -> (result: Result<Option<String>, SimplificationError>)
    ensures
        result_view(result) == top_equation(*environment, fuel as nat, term@, scope@),
    decreases fuel, 22int, 0int,
{
    reveal(top_equation);
    let groups = applicable_groups(
        &environment.definition.simplification_theory,
        &term_index(term),
    );
    find_top_equation_in_groups(environment, fuel, &groups, term, scope)
}

#[verifier::spinoff_prover]
fn find_top_equation_in_groups<'a, 'b, K: Kernel, S: SmtSolver>(
    environment: &Environment<'a, K, S>,
    fuel: usize,
    groups: &Vec<(u8, Vec<&RewriteRule>)>,
    term: &Term,
    scope: &Scope<'b>,
) -> (result: Result<Option<String>, SimplificationError>)
    ensures
        result_view(result) == top_equation_in_groups(
            *environment,
            fuel as nat,
            deep(groups@),
            term@,
            scope@,
            0,
        ),
    decreases fuel, 21int, 0int,
{
    let mut i: usize = 0;
    while i < groups.len()
        invariant
            i <= groups.len(),
            top_equation_in_groups(*environment, fuel as nat, deep(groups@), term@, scope@, 0)
                == top_equation_in_groups(
                *environment,
                fuel as nat,
                deep(groups@),
                term@,
                scope@,
                i as int,
            ),
        decreases groups.len() - i,
    {
        reveal(top_equation_in_groups);
        assert(deep(groups@)[i as int] == (groups[i as int].0, deep(groups[i as int].1@)));
        match find_top_equation(environment, fuel, &groups[i].1, term, scope) {
            Ok(None) => {},
            Ok(Some(rule_id)) => {
                return Ok(Some(rule_id));
            },
            Err(error) => {
                return Err(error);
            },
        }
        i += 1;
    }
    reveal(top_equation_in_groups);
    Ok(None)
}

#[verifier::spinoff_prover]
fn find_top_equation<'a, 'b, K: Kernel, S: SmtSolver>(
    environment: &Environment<'a, K, S>,
    fuel: usize,
    rules: &Vec<&RewriteRule>,
    term: &Term,
    scope: &Scope<'b>,
) -> (result: Result<Option<String>, SimplificationError>)
    ensures
        result_view(result) == top_equation_in_rules(
            *environment,
            fuel as nat,
            deep(rules@),
            term@,
            scope@,
            0,
        ),
    decreases fuel, 15int, 0int,
{
    let mut i: usize = 0;
    while i < rules.len()
        invariant
            i <= rules.len(),
            top_equation_in_rules(*environment, fuel as nat, deep(rules@), term@, scope@, 0)
                == top_equation_in_rules(
                *environment,
                fuel as nat,
                deep(rules@),
                term@,
                scope@,
                i as int,
            ),
        decreases rules.len() - i,
    {
        reveal(top_equation_in_rules);
        let rule: &RewriteRule = rules[i];
        assert(deep(rules@)[i as int] == rule@);
        i += 1;
        if matches!(rule.rhs, RuleRhs::Top) {
            if let EquationMatch::Found(substitution) = match_equation(
                environment.definition,
                &rule.lhs,
                term,
            ) {
                if accepts_match(rule, &substitution) {
                    let conditions = equation_match_conditions(
                        environment.definition,
                        &rule.requires,
                        &substitution,
                    );
                    match evaluate_rule_condition(
                        environment,
                        fuel,
                        &rule.attributes.unique_id,
                        Some(term),
                        conditions,
                        scope,
                    ) {
                        Ok(RuleCondition::Satisfied) => {
                            return Ok(Some(rule.attributes.unique_id.clone()));
                        },
                        Ok(_) => {},
                        Err(error) => {
                            return Err(error);
                        },
                    }
                }
            }
        }
    }
    reveal(top_equation_in_rules);
    Ok(None)
}

#[verifier::spinoff_prover]
fn builtin_rule(term: &Term) -> (result: Vec<String>)
    requires
        hooked(term@),
    ensures
        deep(result@) == seq!["builtin:"@ + term@->Application_symbol.attributes.hook->0],
{
    proof {
        lemma_term_view(*term);
    }
    let mut result: Vec<String> = Vec::new();
    if let Term::Application { symbol, .. } = term {
        if let Some(hook) = &symbol.attributes.hook {
            let mut name = "builtin:".to_owned();
            name.append(hook.as_str());
            result.push(name);
        }
    }
    assert(deep(result@) =~= seq![
        "builtin:"@ + term@->Application_symbol.attributes.hook->0,
    ]);
    result
}

#[verifier::spinoff_prover]
fn is_hooked(term: &Term) -> (result: bool)
    ensures
        result == hooked(term@),
{
    proof {
        lemma_term_view(*term);
    }
    match term {
        Term::Application { symbol, .. } => symbol.attributes.hook.is_some(),
        _ => false,
    }
}

#[verifier::spinoff_prover]
fn simplify_root<'a, 'b, K: Kernel, S: SmtSolver>(
    environment: &Environment<'a, K, S>,
    fuel: usize,
    term: &Term,
    scope: &Scope<'b>,
) -> (result: Result<Simplification, SimplificationError>)
    ensures
        result_view(result) == root_simplified(*environment, fuel as nat, term@, scope@),
    decreases fuel, 25int, 0int,
{
    reveal(root_simplified);
    let mut unsupported: Option<UnsupportedHookReason> = None;
    if is_hooked(term) {
        let mut constraints: Vec<Predicate> = Vec::new();
        let mut effects: Vec<BuiltinEffect> = Vec::new();
        match environment.definition.kernel.evaluate(term) {
            Err(error) => {
                return Err(SimplificationError::Builtin(error));
            },
            Ok(BuiltinResult::NotApplicable) => {},
            Ok(BuiltinResult::Unsupported(reason)) => {
                unsupported = Some(reason);
            },
            Ok(BuiltinResult::Value(value)) => {
                return Ok(
                    Simplification {
                        term: value,
                        constraints,
                        applied_rules: builtin_rule(term),
                        effects,
                        exhausted: None,
                    },
                );
            },
            Ok(BuiltinResult::Bottom) => {
                constraints.push(Predicate::constant(false));
                assert(deep(constraints@) =~= seq![PredicateV::False]);
                return Ok(
                    Simplification {
                        term: term.duplicate(),
                        constraints,
                        applied_rules: builtin_rule(term),
                        effects,
                        exhausted: None,
                    },
                );
            },
            Ok(BuiltinResult::Effect(effect)) => {
                return match builtin_effect_result(environment.definition, term) {
                    Err(error) => Err(error),
                    Ok(value) => {
                        let ghost expected = seq![effect@];
                        effects.push(effect);
                        assert(deep(effects@) =~= expected);
                        Ok(
                            Simplification {
                                term: value,
                                constraints,
                                applied_rules: builtin_rule(term),
                                effects,
                                exhausted: None,
                            },
                        )
                    },
                };
            },
        }
    }
    apply_equations(environment, fuel, term, unsupported, scope)
}

#[verifier::spinoff_prover]
fn apply_equations<'a, 'b, K: Kernel, S: SmtSolver>(
    environment: &Environment<'a, K, S>,
    fuel: usize,
    term: &Term,
    unsupported: Option<UnsupportedHookReason>,
    scope: &Scope<'b>,
) -> (result: Result<Simplification, SimplificationError>)
    ensures
        result_view(result) == equations_applied(
            *environment,
            fuel as nat,
            term@,
            unsupported.deep_view(),
            scope@,
        ),
    decreases fuel, 22int, 0int,
{
    reveal(equations_applied);
    let index = term_index(term);
    let functions = applicable_groups(&environment.definition.function_theory, &index);
    match apply_theory(environment, fuel, &functions, true, term, scope) {
        Err(error) => {
            return Err(error);
        },
        Ok(Some(result)) => {
            return Ok(result);
        },
        Ok(None) => {},
    }
    let simplifications = applicable_groups(
        &environment.definition.simplification_theory,
        &index,
    );
    match apply_theory(environment, fuel, &simplifications, false, term, scope) {
        Err(error) => {
            return Err(error);
        },
        Ok(Some(result)) => {
            return Ok(result);
        },
        Ok(None) => {},
    }
    leave_irreducible(environment.definition, term, unsupported)
}

#[verifier::spinoff_prover]
fn apply_theory<'a, 'b, K: Kernel, S: SmtSolver>(
    environment: &Environment<'a, K, S>,
    fuel: usize,
    groups: &Vec<(u8, Vec<&RewriteRule>)>,
    block: bool,
    term: &Term,
    scope: &Scope<'b>,
) -> (result: Result<Option<Simplification>, SimplificationError>)
    ensures
        result_view(result) == theory_applied(
            *environment,
            fuel as nat,
            deep(groups@),
            block,
            term@,
            scope@,
            0,
        ),
    decreases fuel, 21int, 0int,
{
    let mut i: usize = 0;
    while i < groups.len()
        invariant
            i <= groups.len(),
            theory_applied(*environment, fuel as nat, deep(groups@), block, term@, scope@, 0)
                == theory_applied(
                *environment,
                fuel as nat,
                deep(groups@),
                block,
                term@,
                scope@,
                i as int,
            ),
        decreases groups.len() - i,
    {
        reveal(theory_applied);
        assert(deep(groups@)[i as int] == (groups[i as int].0, deep(groups[i as int].1@)));
        match scan_group(environment, fuel, &groups[i].1, term, scope) {
            Err(error) => {
                return Err(error);
            },
            Ok(GroupScan::Applied(result)) => {
                return Ok(Some(result));
            },
            Ok(GroupScan::Blocked) => {
                if block {
                    return Ok(None);
                }
            },
            Ok(GroupScan::NotApplicable) => {},
        }
        i += 1;
    }
    reveal(theory_applied);
    Ok(None)
}

#[verifier::spinoff_prover]
fn scan_group<'a, 'b, K: Kernel, S: SmtSolver>(
    environment: &Environment<'a, K, S>,
    fuel: usize,
    rules: &Vec<&RewriteRule>,
    term: &Term,
    scope: &Scope<'b>,
) -> (result: Result<GroupScan<Simplification>, SimplificationError>)
    ensures
        scan_view(result) == group_scanned(
            *environment,
            fuel as nat,
            deep(rules@),
            false,
            term@,
            scope@,
            0,
        ),
    decreases fuel, 15int, 0int,
{
    let mut open: bool = false;
    let mut i: usize = 0;
    while i < rules.len()
        invariant
            i <= rules.len(),
            group_scanned(*environment, fuel as nat, deep(rules@), false, term@, scope@, 0)
                == group_scanned(
                *environment,
                fuel as nat,
                deep(rules@),
                open,
                term@,
                scope@,
                i as int,
            ),
        decreases rules.len() - i,
    {
        reveal(group_scanned);
        let rule: &RewriteRule = rules[i];
        assert(deep(rules@)[i as int] == rule@);
        match apply_equation(environment, fuel, rule, term, scope) {
            Err(error) => {
                return Err(error);
            },
            Ok(EquationAttempt::Applied(result)) => {
                return Ok(GroupScan::Applied(result));
            },
            Ok(EquationAttempt::Indeterminate) => {
                open = true;
            },
            Ok(EquationAttempt::NotApplicable) => {},
        }
        i += 1;
    }
    reveal(group_scanned);
    if open {
        Ok(GroupScan::Blocked)
    } else {
        Ok(GroupScan::NotApplicable)
    }
}

#[verifier::spinoff_prover]
fn apply_equation<'a, 'b, K: Kernel, S: SmtSolver>(
    environment: &Environment<'a, K, S>,
    fuel: usize,
    rule: &RewriteRule,
    term: &Term,
    scope: &Scope<'b>,
) -> (result: Result<EquationAttempt<Simplification>, SimplificationError>)
    ensures
        attempted(result) == equation_applied(
            *environment,
            fuel as nat,
            rule@,
            term@,
            scope@,
        ),
    decreases fuel, 12int, 0int,
{
    reveal(equation_applied);
    let substitution = match match_equation(environment.definition, &rule.lhs, term) {
        EquationMatch::NotApplicable => {
            return Ok(EquationAttempt::NotApplicable);
        },
        EquationMatch::Indeterminate => {
            return Ok(EquationAttempt::Indeterminate);
        },
        EquationMatch::Found(substitution) => substitution,
    };
    if !accepts_match(rule, &substitution) {
        return Ok(EquationAttempt::NotApplicable);
    }
    let conditions = equation_match_conditions(
        environment.definition,
        &rule.requires,
        &substitution,
    );
    match evaluate_rule_condition(
        environment,
        fuel,
        &rule.attributes.unique_id,
        Some(term),
        conditions,
        scope,
    ) {
        Err(error) => {
            return Err(error);
        },
        Ok(RuleCondition::Refuted) => {
            return Ok(EquationAttempt::NotApplicable);
        },
        Ok(RuleCondition::Indeterminate(_)) => {
            return Ok(EquationAttempt::Indeterminate);
        },
        Ok(RuleCondition::Satisfied) => {},
    }
    match &rule.rhs {
        RuleRhs::Top => {
            return Err(
                SimplificationError::TopEquationOutsideConjunction {
                    rule_id: rule.attributes.unique_id.clone(),
                },
            );
        },
        RuleRhs::Predicates(_) => {
            return Ok(EquationAttempt::NotApplicable);
        },
        _ => {},
    }
    let alternatives = equation_alternatives(rule, term, &substitution);
    match judge_alternatives(environment, fuel, rule, term, &substitution, &alternatives, scope) {
        Err(error) => Err(error),
        Ok(live) => conclude_equation(rule, term, live),
    }
}

#[verifier::spinoff_prover]
fn judge_alternatives<'a, 'b, K: Kernel, S: SmtSolver>(
    environment: &Environment<'a, K, S>,
    fuel: usize,
    rule: &RewriteRule,
    term: &Term,
    substitution: &Substitution,
    alternatives: &Vec<EquationAlternative>,
    scope: &Scope<'b>,
) -> (result: Result<Vec<(Term, Vec<Predicate>)>, SimplificationError>)
    ensures
        result_view(result) == alternatives_judged(
            *environment,
            fuel as nat,
            rule@,
            term@,
            substitution@,
            deep(alternatives@),
            Seq::empty(),
            scope@,
            0,
        ),
    decreases fuel, 10int, 0int,
{
    let disjunction: bool = matches!(rule.rhs, RuleRhs::Disjunction(_));
    let mut live: Vec<(Term, Vec<Predicate>)> = Vec::new();
    let mut i: usize = 0;
    while i < alternatives.len()
        invariant
            i <= alternatives.len(),
            disjunction == rule@.rhs is Disjunction,
            alternatives_judged(
                *environment,
                fuel as nat,
                rule@,
                term@,
                substitution@,
                deep(alternatives@),
                Seq::empty(),
                scope@,
                0,
            ) == alternatives_judged(
                *environment,
                fuel as nat,
                rule@,
                term@,
                substitution@,
                deep(alternatives@),
                deep(live@),
                scope@,
                i as int,
            ),
        decreases alternatives.len() - i,
    {
        reveal(alternatives_judged);
        assert(deep(alternatives@)[i as int] == alternatives[i as int]@);
        let ensured = substitute_predicates(&alternatives[i].ensures, substitution);
        match evaluate_ensures(
            environment,
            fuel,
            &rule.attributes.unique_id,
            term,
            ensured,
            scope,
        ) {
            Err(error) => {
                return Err(error);
            },
            Ok(verdict) => {
                add_live(&mut live, &alternatives[i], disjunction, verdict);
            },
        }
        i += 1;
    }
    reveal(alternatives_judged);
    Ok(live)
}

// ---------------------------------------------------------------------------------------------
// Conditions
// ---------------------------------------------------------------------------------------------
#[verifier::spinoff_prover]
fn simplify_rule_predicates<'a, 'b, K: Kernel, S: SmtSolver>(
    environment: &Environment<'a, K, S>,
    fuel: usize,
    rule_id: &String,
    anchor: &Term,
    predicates: &Vec<Predicate>,
    scope: &Scope<'b>,
) -> (result: Result<Vec<Predicate>, SimplificationError>)
    ensures
        result_view(result) == rule_predicates_simplified(
            *environment,
            fuel as nat,
            rule_id@,
            anchor@,
            deep(predicates@),
            scope@,
        ),
    decreases fuel, 0int, 0int,
{
    reveal(rule_predicates_simplified);
    let key = (rule_id.clone(), anchor.duplicate());
    if contains(scope.active, &key) {
        return Ok(predicates.duplicate());
    }
    if fuel == 0 {
        return Err(
            SimplificationError::PredicateIterationLimit {
                limit: scope.options.max_iterations,
                predicate: Predicate::conjunction(predicates.duplicate()),
            },
        );
    }
    let mut active = scope.active.duplicate();
    active.push(key);
    let inner = Scope { known: scope.known, options: scope.options, active: &active };
    simplify_predicates_with_budget(
        environment,
        fuel - 1,
        predicates,
        &inner,
        scope.options.max_iterations,
    )
}

#[verifier::spinoff_prover]
pub(crate) fn evaluate_rule_condition<'a, 'b, K: Kernel, S: SmtSolver>(
    environment: &Environment<'a, K, S>,
    fuel: usize,
    rule_id: &String,
    anchor: Option<&Term>,
    predicates: Vec<Predicate>,
    scope: &Scope<'b>,
) -> (result: Result<RuleCondition, SimplificationError>)
    ensures
        result_view(result) == condition_evaluated(
            *environment,
            fuel as nat,
            rule_id@,
            anchor.deep_view(),
            deep(predicates@),
            scope@,
        ),
        told(
            environment.definition.kernel,
            condition_doubt(
                *environment.solver,
                rule_id@,
                condition_reduced(
                    *environment,
                    fuel as nat,
                    rule_id@,
                    anchor.deep_view(),
                    deep(predicates@),
                    scope@,
                ),
                scope@.known,
            ),
        ),
    decreases fuel, 5int, 0int,
{
    reveal(condition_evaluated);
    let reduced = match anchor {
        Some(anchor) => match simplify_rule_predicates(
            environment,
            fuel,
            rule_id,
            anchor,
            &predicates,
            scope,
        ) {
            Ok(simplified) => simplified,
            Err(_) => predicates,
        },
        None => predicates,
    };
    decide_condition(
        &environment.definition.kernel,
        environment.solver,
        rule_id,
        &reduced,
        scope.known,
    )
}

#[verifier::spinoff_prover]
fn evaluate_ensures<'a, 'b, K: Kernel, S: SmtSolver>(
    environment: &Environment<'a, K, S>,
    fuel: usize,
    rule_id: &String,
    term: &Term,
    ensured: Vec<Predicate>,
    scope: &Scope<'b>,
) -> (result: Result<EnsuresVerdict, SimplificationError>)
    ensures
        result_view(result) == ensures_evaluated(
            *environment,
            fuel as nat,
            rule_id@,
            term@,
            deep(ensured@),
            scope@,
        ),
    decreases fuel, 5int, 0int,
{
    reveal(ensures_evaluated);
    let reduced = match simplify_rule_predicates(
        environment,
        fuel,
        rule_id,
        term,
        &ensured,
        scope,
    ) {
        Ok(simplified) => simplified,
        Err(_) => ensured,
    };
    decide_ensures(environment.solver, rule_id, reduced, scope.known)
}

// ---------------------------------------------------------------------------------------------
// Predicates
// ---------------------------------------------------------------------------------------------
/// An index of what is assumed while the parts of a conjunction are simplified.
#[verifier::spinoff_prover]
fn assumption_index(known: &Vec<Predicate>, parts: &Vec<Predicate>) -> (index: PredicateIndex)
    ensures
        index.well_formed(),
        index@ == unique_from(conjuncts_of(deep(known@)), deep(parts@), 0),
{
    let mut index = predicate_conjunct_index(known);
    let ghost start = index@;
    let mut i: usize = 0;
    while i < parts.len()
        invariant
            i <= parts.len(),
            index.well_formed(),
            unique_from(start, deep(parts@), 0) == unique_from(
                index@,
                deep(parts@),
                i as int,
            ),
        decreases parts.len() - i,
    {
        assert(deep(parts@)[i as int] == parts[i as int]@);
        index.insert(parts[i].duplicate());
        i += 1;
    }
    index
}

#[verifier::spinoff_prover]
fn simplify_parts<'a, 'b, K: Kernel, S: SmtSolver>(
    environment: &Environment<'a, K, S>,
    fuel: usize,
    parts: &Vec<Predicate>,
    scope: &Scope<'b>,
    remaining: usize,
) -> (result: Result<Vec<Predicate>, SimplificationError>)
    ensures
        result_view(result) == parts_simplified(
            *environment,
            fuel as nat,
            deep(parts@),
            Seq::empty(),
            scope@,
            remaining,
            0,
        ),
    decreases fuel, 59int, 0int,
{
    let known_index = predicate_conjunct_index(scope.known);
    let all = assumption_index(scope.known, parts);
    let mut done: Vec<Predicate> = Vec::new();
    let mut i: usize = 0;
    while i < parts.len()
        invariant
            i <= parts.len(),
            known_index.well_formed(),
            known_index@ == conjuncts_of(scope@.known),
            all.well_formed(),
            all@ == unique_from(conjuncts_of(scope@.known), deep(parts@), 0),
            parts_simplified(
                *environment,
                fuel as nat,
                deep(parts@),
                Seq::empty(),
                scope@,
                remaining,
                0,
            ) == parts_simplified(
                *environment,
                fuel as nat,
                deep(parts@),
                deep(done@),
                scope@,
                remaining,
                i as int,
            ),
        decreases parts.len() - i,
    {
        reveal(parts_simplified);
        assert(deep(parts@)[i as int] == parts[i as int]@);
        let surrounding = collect_surrounding_predicates(scope.known, parts, &known_index, i);
        let equalities = collect_surrounding_equalities(scope.known, parts, &known_index, i);
        let path = PathConditionReplacements::from_equalities(&equalities);
        let part: &Predicate = &parts[i];
        let excluded: Option<&Predicate> = if known_index.contains(part) {
            None
        } else {
            Some(part)
        };
        let assumptions = Assumptions { path: &path, conjuncts: &all, excluded };
        let inner = Scope { known: &surrounding, options: scope.options, active: scope.active };
        match simplify_predicate_with_budget(
            environment,
            fuel,
            part,
            &assumptions,
            &inner,
            remaining,
        ) {
            Err(error) => {
                return Err(error);
            },
            Ok(predicate) => {
                done.push(predicate);
            },
        }
        i += 1;
    }
    reveal(parts_simplified);
    Ok(done)
}

#[verifier::spinoff_prover]
pub(crate) fn simplify_predicates_with_budget<'a, 'b, K: Kernel, S: SmtSolver>(
    environment: &Environment<'a, K, S>,
    fuel: usize,
    predicates: &Vec<Predicate>,
    scope: &Scope<'b>,
    remaining: usize,
) -> (result: Result<Vec<Predicate>, SimplificationError>)
    ensures
        result_view(result) == predicates_simplified(
            *environment,
            fuel as nat,
            deep(predicates@),
            scope@,
            remaining,
        ),
    decreases fuel, 60int, remaining,
{
    reveal(predicates_simplified);
    let parts = predicate_conjunct_index(predicates).into_predicates();
    let simplified = match simplify_parts(environment, fuel, &parts, scope, remaining) {
        Ok(simplified) => simplified,
        Err(error) => {
            return Err(error);
        },
    };
    let tidied = tidy(environment.definition, simplified);
    if tidied.equals(&parts) {
        return Ok(tidied);
    }
    if remaining == 0 {
        return Err(
            SimplificationError::PredicateIterationLimit {
                limit: scope.options.max_iterations,
                predicate: Predicate::conjunction(tidied),
            },
        );
    }
    simplify_predicates_with_budget(environment, fuel, &tidied, scope, remaining - 1)
}

#[verifier::spinoff_prover]
fn decide_by_assumption<'c>(assumptions: &Assumptions<'c>, predicate: &Predicate) -> (result: Option<
    Predicate,
>)
    requires
        assumptions.conjuncts.well_formed(),
    ensures
        result.deep_view() == by_assumption(assumptions@, predicate@),
{
    if assumptions.contains(predicate) {
        Some(Predicate::constant(true))
    } else if assumptions.contains_negation(predicate) {
        Some(Predicate::constant(false))
    } else {
        None
    }
}

#[verifier::spinoff_prover]
pub(crate) fn simplify_predicate_with_budget<'a, 'b, 'c, K: Kernel, S: SmtSolver>(
    environment: &Environment<'a, K, S>,
    fuel: usize,
    predicate: &Predicate,
    assumptions: &Assumptions<'c>,
    scope: &Scope<'b>,
    remaining: usize,
) -> (result: Result<Predicate, SimplificationError>)
    requires
        assumptions.conjuncts.well_formed(),
    ensures
        result_view(result) == predicate_simplified(
            *environment,
            fuel as nat,
            predicate@,
            assumptions@,
            scope@,
            remaining,
        ),
    decreases fuel, 58int, remaining,
{
    reveal(predicate_simplified);
    if let Some(constant) = decide_by_assumption(assumptions, predicate) {
        return Ok(constant);
    }
    let inside = match simplify_inside(
        environment,
        fuel,
        predicate,
        assumptions,
        scope,
        remaining,
    ) {
        Ok(inside) => inside,
        Err(error) => {
            return Err(error);
        },
    };
    let simplified = normalize_predicate(
        &normalize_hooked_boolean_predicate(environment.definition, &inside),
    );
    if let Some(constant) = decide_by_assumption(assumptions, &simplified) {
        return Ok(constant);
    }
    match apply_predicate_equations(environment, fuel, &simplified, scope) {
        Err(error) => Err(error),
        Ok(None) => Ok(simplified),
        Ok(Some(next)) => {
            if remaining == 0 {
                return Err(
                    SimplificationError::PredicateIterationLimit {
                        limit: scope.options.max_iterations,
                        predicate: next,
                    },
                );
            }
            simplify_predicate_with_budget(
                environment,
                fuel,
                &next,
                assumptions,
                scope,
                remaining - 1,
            )
        },
    }
}

#[verifier::spinoff_prover]
fn simplify_inner_predicate<'a, 'b, 'c, K: Kernel, S: SmtSolver>(
    environment: &Environment<'a, K, S>,
    fuel: usize,
    predicate: &Predicate,
    assumptions: &Assumptions<'c>,
    scope: &Scope<'b>,
    remaining: usize,
) -> (result: Result<Predicate, SimplificationError>)
    requires
        assumptions.conjuncts.well_formed(),
    ensures
        result_view(result) == inner_predicate_simplified(
            *environment,
            fuel as nat,
            predicate@,
            assumptions@,
            scope@,
            remaining,
        ),
    decreases fuel, 0int, 0int,
{
    reveal(inner_predicate_simplified);
    if fuel == 0 {
        return Err(
            SimplificationError::PredicateIterationLimit {
                limit: scope.options.max_iterations,
                predicate: predicate.duplicate(),
            },
        );
    }
    simplify_predicate_with_budget(
        environment,
        fuel - 1,
        predicate,
        assumptions,
        scope,
        remaining,
    )
}

#[verifier::spinoff_prover]
fn simplify_inner_term<'a, 'b, 'c, K: Kernel, S: SmtSolver>(
    environment: &Environment<'a, K, S>,
    fuel: usize,
    term: &Term,
    assumptions: &Assumptions<'c>,
    scope: &Scope<'b>,
    remaining: usize,
) -> (result: Result<Simplification, SimplificationError>)
    ensures
        result_view(result) == inner_term_simplified(
            *environment,
            fuel as nat,
            term@,
            assumptions@,
            scope@,
            remaining,
        ),
    decreases fuel, 1int, 0int,
{
    let inner = make_strict(scope);
    simplify_subterm(environment, fuel, term, assumptions.path, &inner, remaining)
}

#[verifier::spinoff_prover]
fn simplify_inner_conjunction<'a, 'b, K: Kernel, S: SmtSolver>(
    environment: &Environment<'a, K, S>,
    fuel: usize,
    inner: &Vec<Predicate>,
    scope: &Scope<'b>,
    remaining: usize,
) -> (result: Result<Vec<Predicate>, SimplificationError>)
    ensures
        result_view(result) == inner_conjunction_simplified(
            *environment,
            fuel as nat,
            deep(inner@),
            scope@,
            remaining,
        ),
    decreases fuel, 0int, 0int,
{
    reveal(inner_conjunction_simplified);
    if fuel == 0 {
        return Err(
            SimplificationError::PredicateIterationLimit {
                limit: scope.options.max_iterations,
                predicate: Predicate::conjunction(inner.duplicate()),
            },
        );
    }
    simplify_predicates_with_budget(environment, fuel - 1, inner, scope, remaining)
}

#[verifier::spinoff_prover]
fn simplify_disjuncts<'a, 'b, 'c, K: Kernel, S: SmtSolver>(
    environment: &Environment<'a, K, S>,
    fuel: usize,
    inner: &Vec<Predicate>,
    assumptions: &Assumptions<'c>,
    scope: &Scope<'b>,
    remaining: usize,
) -> (result: Result<Vec<Predicate>, SimplificationError>)
    requires
        assumptions.conjuncts.well_formed(),
    ensures
        result_view(result) == disjuncts_simplified(
            *environment,
            fuel as nat,
            deep(inner@),
            Seq::empty(),
            assumptions@,
            scope@,
            remaining,
            0,
        ),
    decreases fuel, 40int, 0int,
{
    let mut done: Vec<Predicate> = Vec::new();
    let mut i: usize = 0;
    while i < inner.len()
        invariant
            i <= inner.len(),
            assumptions.conjuncts.well_formed(),
            disjuncts_simplified(
                *environment,
                fuel as nat,
                deep(inner@),
                Seq::empty(),
                assumptions@,
                scope@,
                remaining,
                0,
            ) == disjuncts_simplified(
                *environment,
                fuel as nat,
                deep(inner@),
                deep(done@),
                assumptions@,
                scope@,
                remaining,
                i as int,
            ),
        decreases inner.len() - i,
    {
        reveal(disjuncts_simplified);
        assert(deep(inner@)[i as int] == inner[i as int]@);
        match simplify_inner_predicate(
            environment,
            fuel,
            &inner[i],
            assumptions,
            scope,
            remaining,
        ) {
            Err(error) => {
                return Err(error);
            },
            Ok(predicate) => {
                done.push(predicate);
            },
        }
        i += 1;
    }
    reveal(disjuncts_simplified);
    Ok(done)
}

#[verifier::spinoff_prover]
fn reduce_equality<K: Kernel>(
    definition: &BackendDefinition<K>,
    left: Simplification,
    right: Simplification,
) -> (result: Predicate)
    ensures
        result@ == equality_reduced(*definition, left@, right@),
{
    let mut constraints = left.constraints;
    let mut more = right.constraints;
    constraints.append(&mut more);
    let equality = normalize_hooked_boolean_predicate(
        definition,
        &Predicate::equality(left.term, right.term),
    );
    let equality = normalize_injection_equality(definition, &equality);
    with_simplification_constraints(constraints, equality)
}

#[verifier::spinoff_prover]
fn simplify_pair<'a, 'b, 'c, K: Kernel, S: SmtSolver>(
    environment: &Environment<'a, K, S>,
    fuel: usize,
    left: &Predicate,
    right: &Predicate,
    assumptions: &Assumptions<'c>,
    scope: &Scope<'b>,
    remaining: usize,
) -> (result: Result<(Predicate, Predicate), SimplificationError>)
    requires
        assumptions.conjuncts.well_formed(),
    ensures
        result_view(result) == (match (
            inner_predicate_simplified(
                *environment,
                fuel as nat,
                left@,
                assumptions@,
                scope@,
                remaining,
            ),
            inner_predicate_simplified(
                *environment,
                fuel as nat,
                right@,
                assumptions@,
                scope@,
                remaining,
            ),
        ) {
            (Err(error), _) => Err(error),
            (Ok(_), Err(error)) => Err(error),
            (Ok(left), Ok(right)) => Ok((left, right)),
        }),
    decreases fuel, 2int, 0int,
{
    let left = match simplify_inner_predicate(
        environment,
        fuel,
        left,
        assumptions,
        scope,
        remaining,
    ) {
        Ok(left) => left,
        Err(error) => {
            return Err(error);
        },
    };
    match simplify_inner_predicate(environment, fuel, right, assumptions, scope, remaining) {
        Ok(right) => Ok((left, right)),
        Err(error) => Err(error),
    }
}

#[verifier::spinoff_prover]
fn simplify_term_pair<'a, 'b, 'c, K: Kernel, S: SmtSolver>(
    environment: &Environment<'a, K, S>,
    fuel: usize,
    left: &Term,
    right: &Term,
    assumptions: &Assumptions<'c>,
    scope: &Scope<'b>,
    remaining: usize,
) -> (result: Result<(Simplification, Simplification), SimplificationError>)
    ensures
        result_view(result) == (match (
            inner_term_simplified(
                *environment,
                fuel as nat,
                left@,
                assumptions@,
                scope@,
                remaining,
            ),
            inner_term_simplified(
                *environment,
                fuel as nat,
                right@,
                assumptions@,
                scope@,
                remaining,
            ),
        ) {
            (Err(error), _) => Err(error),
            (Ok(_), Err(error)) => Err(error),
            (Ok(left), Ok(right)) => Ok((left, right)),
        }),
    decreases fuel, 2int, 0int,
{
    let left = match simplify_inner_term(environment, fuel, left, assumptions, scope, remaining) {
        Ok(left) => left,
        Err(error) => {
            return Err(error);
        },
    };
    match simplify_inner_term(environment, fuel, right, assumptions, scope, remaining) {
        Ok(right) => Ok((left, right)),
        Err(error) => Err(error),
    }
}

#[verifier::spinoff_prover]
fn simplify_inside<'a, 'b, 'c, K: Kernel, S: SmtSolver>(
    environment: &Environment<'a, K, S>,
    fuel: usize,
    predicate: &Predicate,
    assumptions: &Assumptions<'c>,
    scope: &Scope<'b>,
    remaining: usize,
) -> (result: Result<Predicate, SimplificationError>)
    requires
        assumptions.conjuncts.well_formed(),
    ensures
        result_view(result) == predicate_inside_simplified(
            *environment,
            fuel as nat,
            predicate@,
            assumptions@,
            scope@,
            remaining,
        ),
    decreases fuel, 50int, 0int,
{
    reveal(predicate_inside_simplified);
    proof {
        lemma_predicate_view(*predicate);
    }
    match predicate {
        Predicate::True => Ok(Predicate::constant(true)),
        Predicate::False => Ok(Predicate::constant(false)),
        Predicate::Term(term) => match simplify_inner_term(
            environment,
            fuel,
            term,
            assumptions,
            scope,
            remaining,
        ) {
            Err(error) => Err(error),
            Ok(result) => Ok(
                with_simplification_constraints(
                    result.constraints,
                    Predicate::of_term(result.term),
                ),
            ),
        },
        Predicate::Ceil(term) => match simplify_inner_term(
            environment,
            fuel,
            term,
            assumptions,
            scope,
            remaining,
        ) {
            Err(error) => Err(error),
            Ok(result) => Ok(expand_ceil(environment.definition, result, assumptions)),
        },
        Predicate::Floor(term) => match simplify_inner_term(
            environment,
            fuel,
            term,
            assumptions,
            scope,
            remaining,
        ) {
            Err(error) => Err(error),
            Ok(result) => Ok(
                with_simplification_constraints(
                    result.constraints,
                    Predicate::floor(result.term),
                ),
            ),
        },
        Predicate::Equals(left, right) => match simplify_term_pair(
            environment,
            fuel,
            left,
            right,
            assumptions,
            scope,
            remaining,
        ) {
            Err(error) => Err(error),
            Ok((left, right)) => Ok(reduce_equality(environment.definition, left, right)),
        },
        Predicate::In(left, right) => match simplify_term_pair(
            environment,
            fuel,
            left,
            right,
            assumptions,
            scope,
            remaining,
        ) {
            Err(error) => Err(error),
            Ok((left, right)) => {
                let mut constraints = left.constraints;
                let mut more = right.constraints;
                constraints.append(&mut more);
                Ok(
                    with_simplification_constraints(
                        constraints,
                        Predicate::member(left.term, right.term),
                    ),
                )
            },
        },
        Predicate::Not(inner) => match simplify_inner_predicate(
            environment,
            fuel,
            inner,
            assumptions,
            scope,
            remaining,
        ) {
            Err(error) => Err(error),
            Ok(inner) => Ok(Predicate::negation(inner)),
        },
        Predicate::And(inner) => match simplify_inner_conjunction(
            environment,
            fuel,
            inner,
            scope,
            remaining,
        ) {
            Err(error) => Err(error),
            Ok(inner) => Ok(Predicate::conjunction(inner)),
        },
        Predicate::Or(inner) => match simplify_disjuncts(
            environment,
            fuel,
            inner,
            assumptions,
            scope,
            remaining,
        ) {
            Err(error) => Err(error),
            Ok(inner) => Ok(Predicate::disjunction(inner)),
        },
        Predicate::Implies(left, right) => match simplify_pair(
            environment,
            fuel,
            left,
            right,
            assumptions,
            scope,
            remaining,
        ) {
            Err(error) => Err(error),
            Ok((left, right)) => Ok(Predicate::implication(left, right)),
        },
        Predicate::Iff(left, right) => match simplify_pair(
            environment,
            fuel,
            left,
            right,
            assumptions,
            scope,
            remaining,
        ) {
            Err(error) => Err(error),
            Ok((left, right)) => Ok(Predicate::equivalence(left, right)),
        },
        Predicate::Exists(variable, inner) => match simplify_inner_predicate(
            environment,
            fuel,
            inner,
            assumptions,
            scope,
            remaining,
        ) {
            Err(error) => Err(error),
            Ok(inner) => Ok(Predicate::for_some(variable.duplicate(), inner)),
        },
        Predicate::Forall(variable, inner) => match simplify_inner_predicate(
            environment,
            fuel,
            inner,
            assumptions,
            scope,
            remaining,
        ) {
            Err(error) => Err(error),
            Ok(inner) => Ok(Predicate::for_all(variable.duplicate(), inner)),
        },
    }
}

#[verifier::spinoff_prover]
fn apply_predicate_equations<'a, 'b, K: Kernel, S: SmtSolver>(
    environment: &Environment<'a, K, S>,
    fuel: usize,
    predicate: &Predicate,
    scope: &Scope<'b>,
) -> (result: Result<Option<Predicate>, SimplificationError>)
    ensures
        result_view(result) == predicate_equations_applied(
            *environment,
            fuel as nat,
            predicate@,
            scope@,
        ),
    decreases fuel, 30int, 0int,
{
    reveal(predicate_equations_applied);
    let inner = make_strict(scope);
    match apply_ceil_theory(environment, fuel, predicate, &inner) {
        Err(error) => {
            return Err(error);
        },
        Ok(Some(next)) => {
            return Ok(Some(next));
        },
        Ok(None) => {},
    }
    apply_predicate_theory(environment, fuel, predicate, &inner)
}

/// Apply the first equation for the definedness of a term that applies.
#[verifier::spinoff_prover]
pub fn apply_ceil_theory<'a, 'b, K: Kernel, S: SmtSolver>(
    environment: &Environment<'a, K, S>,
    fuel: usize,
    predicate: &Predicate,
    scope: &Scope<'b>,
) -> (result: Result<Option<Predicate>, SimplificationError>)
    ensures
        result_view(result) == ceil_theory_applied(
            *environment,
            fuel as nat,
            predicate@,
            scope@,
        ),
    decreases fuel, 22int, 0int,
{
    reveal(ceil_theory_applied);
    proof {
        lemma_predicate_view(*predicate);
    }
    let term = match predicate {
        Predicate::Ceil(term) => term,
        _ => {
            return Ok(None);
        },
    };
    let groups = applicable_groups(&environment.definition.ceil_theory, &term_index(term));
    apply_ceil_groups(environment, fuel, &groups, term, scope)
}

#[verifier::spinoff_prover]
fn apply_ceil_groups<'a, 'b, K: Kernel, S: SmtSolver>(
    environment: &Environment<'a, K, S>,
    fuel: usize,
    groups: &Vec<(u8, Vec<&RewriteRule>)>,
    term: &Term,
    scope: &Scope<'b>,
) -> (result: Result<Option<Predicate>, SimplificationError>)
    ensures
        result_view(result) == ceil_groups_applied(
            *environment,
            fuel as nat,
            deep(groups@),
            term@,
            scope@,
            0,
        ),
    decreases fuel, 21int, 0int,
{
    let mut i: usize = 0;
    while i < groups.len()
        invariant
            i <= groups.len(),
            ceil_groups_applied(*environment, fuel as nat, deep(groups@), term@, scope@, 0)
                == ceil_groups_applied(
                *environment,
                fuel as nat,
                deep(groups@),
                term@,
                scope@,
                i as int,
            ),
        decreases groups.len() - i,
    {
        reveal(ceil_groups_applied);
        assert(deep(groups@)[i as int] == (groups[i as int].0, deep(groups[i as int].1@)));
        match scan_ceil_group(environment, fuel, &groups[i].1, term, scope) {
            Err(error) => {
                return Err(error);
            },
            Ok(GroupScan::Applied(result)) => {
                return Ok(Some(result));
            },
            Ok(GroupScan::Blocked) => {
                return Ok(None);
            },
            Ok(GroupScan::NotApplicable) => {},
        }
        i += 1;
    }
    reveal(ceil_groups_applied);
    Ok(None)
}

#[verifier::spinoff_prover]
fn scan_ceil_group<'a, 'b, K: Kernel, S: SmtSolver>(
    environment: &Environment<'a, K, S>,
    fuel: usize,
    rules: &Vec<&RewriteRule>,
    term: &Term,
    scope: &Scope<'b>,
) -> (result: Result<GroupScan<Predicate>, SimplificationError>)
    ensures
        scan_view(result) == ceil_group_scanned(
            *environment,
            fuel as nat,
            deep(rules@),
            false,
            term@,
            scope@,
            0,
        ),
    decreases fuel, 15int, 0int,
{
    let mut open: bool = false;
    let mut i: usize = 0;
    while i < rules.len()
        invariant
            i <= rules.len(),
            ceil_group_scanned(*environment, fuel as nat, deep(rules@), false, term@, scope@, 0)
                == ceil_group_scanned(
                *environment,
                fuel as nat,
                deep(rules@),
                open,
                term@,
                scope@,
                i as int,
            ),
        decreases rules.len() - i,
    {
        reveal(ceil_group_scanned);
        let rule: &RewriteRule = rules[i];
        assert(deep(rules@)[i as int] == rule@);
        match apply_ceil_equation(environment, fuel, rule, term, scope) {
            Err(error) => {
                return Err(error);
            },
            Ok(EquationAttempt::Applied(result)) => {
                return Ok(GroupScan::Applied(result));
            },
            Ok(EquationAttempt::Indeterminate) => {
                open = true;
            },
            Ok(EquationAttempt::NotApplicable) => {},
        }
        i += 1;
    }
    reveal(ceil_group_scanned);
    if open {
        Ok(GroupScan::Blocked)
    } else {
        Ok(GroupScan::NotApplicable)
    }
}

#[verifier::spinoff_prover]
fn apply_ceil_equation<'a, 'b, K: Kernel, S: SmtSolver>(
    environment: &Environment<'a, K, S>,
    fuel: usize,
    rule: &RewriteRule,
    term: &Term,
    scope: &Scope<'b>,
) -> (result: Result<EquationAttempt<Predicate>, SimplificationError>)
    ensures
        attempted(result) == ceil_equation_applied(
            *environment,
            fuel as nat,
            rule@,
            term@,
            scope@,
        ),
    decreases fuel, 12int, 0int,
{
    reveal(ceil_equation_applied);
    let substitution = match match_equation(environment.definition, &rule.lhs, term) {
        EquationMatch::NotApplicable => {
            return Ok(EquationAttempt::NotApplicable);
        },
        EquationMatch::Indeterminate => {
            return Ok(EquationAttempt::Indeterminate);
        },
        EquationMatch::Found(substitution) => substitution,
    };
    if !accepts_match(rule, &substitution) {
        return Ok(EquationAttempt::NotApplicable);
    }
    let conditions = equation_match_conditions(
        environment.definition,
        &rule.requires,
        &substitution,
    );
    match evaluate_rule_condition(
        environment,
        fuel,
        &rule.attributes.unique_id,
        Some(term),
        conditions,
        scope,
    ) {
        Err(error) => {
            return Err(error);
        },
        Ok(RuleCondition::Refuted) => {
            return Ok(EquationAttempt::NotApplicable);
        },
        Ok(RuleCondition::Indeterminate(_)) => {
            return Ok(EquationAttempt::Indeterminate);
        },
        Ok(RuleCondition::Satisfied) => {},
    }
    match &rule.rhs {
        RuleRhs::Predicates(rhs) => Ok(
            EquationAttempt::Applied(
                normalize_predicate(
                    &Predicate::conjunction(substitute_predicates(rhs, &substitution)),
                ),
            ),
        ),
        _ => Ok(EquationAttempt::NotApplicable),
    }
}

#[verifier::spinoff_prover]
fn apply_predicate_theory<'a, 'b, K: Kernel, S: SmtSolver>(
    environment: &Environment<'a, K, S>,
    fuel: usize,
    predicate: &Predicate,
    scope: &Scope<'b>,
) -> (result: Result<Option<Predicate>, SimplificationError>)
    ensures
        result_view(result) == predicate_theory_applied(
            *environment,
            fuel as nat,
            deep(environment.definition.predicate_simplification_theory@),
            predicate@,
            scope@,
            0,
        ),
    decreases fuel, 21int, 0int,
{
    let groups = &environment.definition.predicate_simplification_theory;
    let mut i: usize = 0;
    while i < groups.len()
        invariant
            i <= groups.len(),
            *groups == environment.definition.predicate_simplification_theory,
            predicate_theory_applied(
                *environment,
                fuel as nat,
                deep(groups@),
                predicate@,
                scope@,
                0,
            ) == predicate_theory_applied(
                *environment,
                fuel as nat,
                deep(groups@),
                predicate@,
                scope@,
                i as int,
            ),
        decreases groups.len() - i,
    {
        reveal(predicate_theory_applied);
        assert(deep(groups@)[i as int] == (groups[i as int].0, deep(groups[i as int].1@)));
        match scan_predicate_group(environment, fuel, &groups[i].1, predicate, scope) {
            Err(error) => {
                return Err(error);
            },
            Ok(GroupScan::Applied(result)) => {
                return Ok(Some(result));
            },
            Ok(GroupScan::Blocked) => {
                return Ok(None);
            },
            Ok(GroupScan::NotApplicable) => {},
        }
        i += 1;
    }
    reveal(predicate_theory_applied);
    Ok(None)
}

#[verifier::spinoff_prover]
fn scan_predicate_group<'a, 'b, K: Kernel, S: SmtSolver>(
    environment: &Environment<'a, K, S>,
    fuel: usize,
    rules: &Vec<PredicateRewriteRule>,
    predicate: &Predicate,
    scope: &Scope<'b>,
) -> (result: Result<GroupScan<Predicate>, SimplificationError>)
    ensures
        scan_view(result) == predicate_group_scanned(
            *environment,
            fuel as nat,
            deep(rules@),
            false,
            predicate@,
            scope@,
            0,
        ),
    decreases fuel, 15int, 0int,
{
    let mut open: bool = false;
    let mut i: usize = 0;
    while i < rules.len()
        invariant
            i <= rules.len(),
            predicate_group_scanned(
                *environment,
                fuel as nat,
                deep(rules@),
                false,
                predicate@,
                scope@,
                0,
            ) == predicate_group_scanned(
                *environment,
                fuel as nat,
                deep(rules@),
                open,
                predicate@,
                scope@,
                i as int,
            ),
        decreases rules.len() - i,
    {
        reveal(predicate_group_scanned);
        assert(deep(rules@)[i as int] == rules[i as int]@);
        match apply_predicate_equation(environment, fuel, &rules[i], predicate, scope) {
            Err(error) => {
                return Err(error);
            },
            Ok(EquationAttempt::Applied(result)) => {
                return Ok(GroupScan::Applied(result));
            },
            Ok(EquationAttempt::Indeterminate) => {
                open = true;
            },
            Ok(EquationAttempt::NotApplicable) => {},
        }
        i += 1;
    }
    reveal(predicate_group_scanned);
    if open {
        Ok(GroupScan::Blocked)
    } else {
        Ok(GroupScan::NotApplicable)
    }
}

#[verifier::spinoff_prover]
fn apply_predicate_equation<'a, 'b, K: Kernel, S: SmtSolver>(
    environment: &Environment<'a, K, S>,
    fuel: usize,
    rule: &PredicateRewriteRule,
    predicate: &Predicate,
    scope: &Scope<'b>,
) -> (result: Result<EquationAttempt<Predicate>, SimplificationError>)
    ensures
        attempted(result) == predicate_equation_applied(
            *environment,
            fuel as nat,
            rule@,
            predicate@,
            scope@,
        ),
    decreases fuel, 12int, 0int,
{
    reveal(predicate_equation_applied);
    let substitution = match match_predicate(environment.definition, &rule.lhs, predicate) {
        EquationMatch::NotApplicable => {
            return Ok(EquationAttempt::NotApplicable);
        },
        EquationMatch::Indeterminate => {
            return Ok(EquationAttempt::Indeterminate);
        },
        EquationMatch::Found(substitution) => substitution,
    };
    let conditions = equation_match_conditions(
        environment.definition,
        &rule.requires,
        &substitution,
    );
    match evaluate_rule_condition(
        environment,
        fuel,
        &rule.attributes.unique_id,
        first_predicate_term(predicate),
        conditions,
        scope,
    ) {
        Err(error) => {
            return Err(error);
        },
        Ok(RuleCondition::Refuted) => {
            return Ok(EquationAttempt::NotApplicable);
        },
        Ok(RuleCondition::Indeterminate(_)) => {
            return Ok(EquationAttempt::Indeterminate);
        },
        Ok(RuleCondition::Satisfied) => {},
    }
    Ok(
        EquationAttempt::Applied(
            normalize_predicate(
                &Predicate::conjunction(substitute_predicates(&rule.rhs, &substitution)),
            ),
        ),
    )
}

} // verus!
