//! What holds of simplification: more iterations change no result, and a result is simple.

use vstd::prelude::*;
use crate::definition::BackendDefinition;
use crate::equations::{
    all_conjuncts_into, alternatives_of, conjuncts_into, conjuncts_of, equation_matched, groups_for,
    match_conditions, EquationAlternativeV, EquationMatchV,
};
use crate::index::push_unique;
use crate::kernel::Kernel;
use crate::model::law_difference;
use crate::ops::children;
use crate::path::{
    conjunctive_equalities, path_applied, replacements_of, PathConditionReplacementsV,
};
use crate::predicate::PredicateV;
use crate::predicates::predicates_substituted;
use crate::normalize::{hooked_normalized, normalized};
use crate::construct::evaluated;
use crate::rule::{index_of, GroupsV, RewriteRuleV};
use crate::simplification::{
    conjunction_simplified, initial_scope, iterations_spent, simplified, SIMPLIFICATION_DEPTH,
};
use crate::simplify_parts::{
    joined, live_with, strict, strict_scope, tidy_parts, unchanged, AssumptionsV, Environment,
    EquationAttempt, GroupScan, ScopeV,
};
use crate::simplify_spec::{
    by_assumption, children_simplified, disjuncts_simplified, inner_conjunction_simplified,
    inner_predicate_simplified, inner_term_simplified, kids_simplified, part_assumptions,
    part_scope, parts_simplified, predicate_equations_applied, predicate_inside_simplified,
    predicate_simplified, predicates_simplified, root_simplified, subterm_simplified,
    term_simplified, top_equation, top_equation_in_groups, top_equation_in_rules,
    alternatives_judged, condition_evaluated, ensures_evaluated, equation_applied,
    equations_applied, group_scanned, theory_applied, rebuilt, TermOutcome,
};
use crate::simplify_types::{
    BudgetExhaustion, BudgetSubject, SimplificationErrorV, SimplificationOptions, SimplificationV,
};
use crate::solver::SmtSolver;
use crate::substitution::SubstitutionV;
use crate::term::TermV;

verus! {

// ---------------------------------------------------------------------------------------------
// More iterations
// ---------------------------------------------------------------------------------------------
proof fn lemma_term_more<'a, K: Kernel, S: SmtSolver>(
    environment: Environment<'a, K, S>,
    fuel: nat,
    term: TermV,
    before: SimplificationV,
    path: PathConditionReplacementsV,
    scope: ScopeV,
    remaining: usize,
    more: usize,
)
    requires
        scope.options.budget is Fail,
        remaining <= more,
        term_simplified(environment, fuel, term, before, path, scope, remaining) is Ok,
    ensures
        term_simplified(environment, fuel, term, before, path, scope, more) == term_simplified(
            environment,
            fuel,
            term,
            before,
            path,
            scope,
            remaining,
        ),
    decreases fuel, 30int, remaining,
{
    reveal(term_simplified);
    reveal(children_simplified);
    reveal(root_simplified);
    let current = path_applied(path, term);
    if !evaluated(current) {
        lemma_children_more(environment, fuel, current, path, scope, remaining, more);
        let inner = children_simplified(environment, fuel, current, path, scope, remaining)->Ok_0;
        let root = root_simplified(environment, fuel, inner.term, strict_scope(scope))->Ok_0;
        let reached = joined(joined(before, inner), root);
        if !(root.term == inner.term || evaluated(root.term)) && remaining > 0
            && reached.exhausted is None {
            lemma_term_more(
                environment,
                fuel,
                root.term,
                reached,
                path,
                scope,
                (remaining - 1) as usize,
                (more - 1) as usize,
            );
        }
    }
}

proof fn lemma_subterm_more<'a, K: Kernel, S: SmtSolver>(
    environment: Environment<'a, K, S>,
    fuel: nat,
    term: TermV,
    path: PathConditionReplacementsV,
    scope: ScopeV,
    remaining: usize,
    more: usize,
)
    requires
        scope.options.budget is Fail,
        remaining <= more,
        subterm_simplified(environment, fuel, term, path, scope, remaining) is Ok,
    ensures
        subterm_simplified(environment, fuel, term, path, scope, more) == subterm_simplified(
            environment,
            fuel,
            term,
            path,
            scope,
            remaining,
        ),
    decreases fuel, 0int, 0int,
{
    reveal(subterm_simplified);
    reveal(term_simplified);
    if fuel > 0 {
        lemma_term_more(
            environment,
            (fuel - 1) as nat,
            term,
            unchanged(term),
            path,
            scope,
            remaining,
            more,
        );
    }
}

proof fn lemma_kids_more<'a, K: Kernel, S: SmtSolver>(
    environment: Environment<'a, K, S>,
    fuel: nat,
    term: TermV,
    from: int,
    kids: Seq<TermV>,
    before: SimplificationV,
    path: PathConditionReplacementsV,
    scope: ScopeV,
    remaining: usize,
    more: usize,
)
    requires
        scope.options.budget is Fail,
        remaining <= more,
        kids_simplified(
            environment,
            fuel,
            term,
            from,
            kids,
            before,
            path,
            scope,
            remaining,
        ) is Ok,
    ensures
        kids_simplified(environment, fuel, term, from, kids, before, path, scope, more)
            == kids_simplified(
            environment,
            fuel,
            term,
            from,
            kids,
            before,
            path,
            scope,
            remaining,
        ),
    decreases fuel, 20int, children(term).len() - from,
{
    reveal(kids_simplified);
    reveal(subterm_simplified);
    if 0 <= from < children(term).len() {
        lemma_subterm_more(
            environment,
            fuel,
            children(term)[from],
            path,
            scope,
            remaining,
            more,
        );
        let kid = subterm_simplified(
            environment,
            fuel,
            children(term)[from],
            path,
            scope,
            remaining,
        )->Ok_0;
        lemma_kids_more(
            environment,
            fuel,
            term,
            from + 1,
            kids.push(kid.term),
            joined(before, kid),
            path,
            scope,
            remaining,
            more,
        );
    }
}

#[verifier::spinoff_prover]
proof fn lemma_children_more<'a, K: Kernel, S: SmtSolver>(
    environment: Environment<'a, K, S>,
    fuel: nat,
    term: TermV,
    path: PathConditionReplacementsV,
    scope: ScopeV,
    remaining: usize,
    more: usize,
)
    requires
        scope.options.budget is Fail,
        remaining <= more,
        children_simplified(environment, fuel, term, path, scope, remaining) is Ok,
    ensures
        children_simplified(environment, fuel, term, path, scope, more) == children_simplified(
            environment,
            fuel,
            term,
            path,
            scope,
            remaining,
        ),
    decreases fuel, 25int, 0int,
{
    reveal(children_simplified);
    reveal(subterm_simplified);
    reveal(kids_simplified);
    reveal(top_equation);
    let none = Seq::<TermV>::empty();
    let start = unchanged(term);
    match term {
        TermV::DomainValue { .. } | TermV::Variable(_) => {},
        TermV::And(left, right) => {
            if subterm_simplified(environment, fuel, *left, path, scope, remaining) is Ok {
                lemma_subterm_more(environment, fuel, *left, path, scope, remaining, more);
            }
            if subterm_simplified(environment, fuel, *right, path, scope, remaining) is Ok {
                lemma_subterm_more(environment, fuel, *right, path, scope, remaining, more);
            }
            if kids_simplified(
                environment,
                fuel,
                term,
                0,
                none,
                start,
                path,
                scope,
                remaining,
            ) is Ok {
                lemma_kids_more(
                    environment,
                    fuel,
                    term,
                    0,
                    none,
                    start,
                    path,
                    scope,
                    remaining,
                    more,
                );
            }
        },
        _ => {
            lemma_kids_more(
                environment,
                fuel,
                term,
                0,
                none,
                start,
                path,
                scope,
                remaining,
                more,
            );
        },
    }
}

proof fn lemma_inner_term_more<'a, K: Kernel, S: SmtSolver>(
    environment: Environment<'a, K, S>,
    fuel: nat,
    term: TermV,
    assumptions: AssumptionsV,
    scope: ScopeV,
    remaining: usize,
    more: usize,
)
    requires
        remaining <= more,
    ensures
        inner_term_simplified(environment, fuel, term, assumptions, scope, remaining) is Ok
            ==> inner_term_simplified(environment, fuel, term, assumptions, scope, more)
            == inner_term_simplified(environment, fuel, term, assumptions, scope, remaining),
{
    reveal(subterm_simplified);
    reveal(term_simplified);
    if inner_term_simplified(environment, fuel, term, assumptions, scope, remaining) is Ok {
        lemma_subterm_more(
            environment,
            fuel,
            term,
            assumptions.path,
            strict_scope(scope),
            remaining,
            more,
        );
    }
}

proof fn lemma_predicate_more<'a, K: Kernel, S: SmtSolver>(
    environment: Environment<'a, K, S>,
    fuel: nat,
    predicate: PredicateV,
    assumptions: AssumptionsV,
    scope: ScopeV,
    remaining: usize,
    more: usize,
)
    requires
        remaining <= more,
        predicate_simplified(environment, fuel, predicate, assumptions, scope, remaining) is Ok,
    ensures
        predicate_simplified(environment, fuel, predicate, assumptions, scope, more)
            == predicate_simplified(environment, fuel, predicate, assumptions, scope, remaining),
    decreases fuel, 58int, remaining,
{
    reveal(predicate_simplified);
    reveal(predicate_inside_simplified);
    reveal(predicate_equations_applied);
    if by_assumption(assumptions, predicate) is None {
        lemma_inside_more(environment, fuel, predicate, assumptions, scope, remaining, more);
        let inside = predicate_inside_simplified(
            environment,
            fuel,
            predicate,
            assumptions,
            scope,
            remaining,
        )->Ok_0;
        let simple = normalized(hooked_normalized(*environment.definition, inside));
        if by_assumption(assumptions, simple) is None {
            if let Ok(Some(next)) = predicate_equations_applied(environment, fuel, simple, scope) {
                if remaining > 0 {
                    lemma_predicate_more(
                        environment,
                        fuel,
                        next,
                        assumptions,
                        scope,
                        (remaining - 1) as usize,
                        (more - 1) as usize,
                    );
                }
            }
        }
    }
}

proof fn lemma_inner_predicate_more<'a, K: Kernel, S: SmtSolver>(
    environment: Environment<'a, K, S>,
    fuel: nat,
    predicate: PredicateV,
    assumptions: AssumptionsV,
    scope: ScopeV,
    remaining: usize,
    more: usize,
)
    requires
        remaining <= more,
    ensures
        inner_predicate_simplified(environment, fuel, predicate, assumptions, scope, remaining)
            is Ok ==> inner_predicate_simplified(
            environment,
            fuel,
            predicate,
            assumptions,
            scope,
            more,
        ) == inner_predicate_simplified(
            environment,
            fuel,
            predicate,
            assumptions,
            scope,
            remaining,
        ),
    decreases fuel, 0int, 0int,
{
    reveal(inner_predicate_simplified);
    reveal(predicate_simplified);
    if fuel > 0 && inner_predicate_simplified(
        environment,
        fuel,
        predicate,
        assumptions,
        scope,
        remaining,
    ) is Ok {
        lemma_predicate_more(
            environment,
            (fuel - 1) as nat,
            predicate,
            assumptions,
            scope,
            remaining,
            more,
        );
    }
}

proof fn lemma_disjuncts_more<'a, K: Kernel, S: SmtSolver>(
    environment: Environment<'a, K, S>,
    fuel: nat,
    inner: Seq<PredicateV>,
    done: Seq<PredicateV>,
    assumptions: AssumptionsV,
    scope: ScopeV,
    remaining: usize,
    more: usize,
    from: int,
)
    requires
        remaining <= more,
        disjuncts_simplified(
            environment,
            fuel,
            inner,
            done,
            assumptions,
            scope,
            remaining,
            from,
        ) is Ok,
    ensures
        disjuncts_simplified(environment, fuel, inner, done, assumptions, scope, more, from)
            == disjuncts_simplified(
            environment,
            fuel,
            inner,
            done,
            assumptions,
            scope,
            remaining,
            from,
        ),
    decreases fuel, 40int, inner.len() - from,
{
    reveal(disjuncts_simplified);
    reveal(inner_predicate_simplified);
    if 0 <= from < inner.len() {
        lemma_inner_predicate_more(
            environment,
            fuel,
            inner[from],
            assumptions,
            scope,
            remaining,
            more,
        );
        let predicate = inner_predicate_simplified(
            environment,
            fuel,
            inner[from],
            assumptions,
            scope,
            remaining,
        )->Ok_0;
        lemma_disjuncts_more(
            environment,
            fuel,
            inner,
            done.push(predicate),
            assumptions,
            scope,
            remaining,
            more,
            from + 1,
        );
    }
}

#[verifier::spinoff_prover]
proof fn lemma_inside_more<'a, K: Kernel, S: SmtSolver>(
    environment: Environment<'a, K, S>,
    fuel: nat,
    predicate: PredicateV,
    assumptions: AssumptionsV,
    scope: ScopeV,
    remaining: usize,
    more: usize,
)
    requires
        remaining <= more,
        predicate_inside_simplified(environment, fuel, predicate, assumptions, scope, remaining)
            is Ok,
    ensures
        predicate_inside_simplified(environment, fuel, predicate, assumptions, scope, more)
            == predicate_inside_simplified(
            environment,
            fuel,
            predicate,
            assumptions,
            scope,
            remaining,
        ),
    decreases fuel, 50int, 0int,
{
    reveal(predicate_inside_simplified);
    reveal(inner_predicate_simplified);
    reveal(inner_conjunction_simplified);
    reveal(disjuncts_simplified);
    reveal(subterm_simplified);
    match predicate {
        PredicateV::Term(term) | PredicateV::Ceil(term) | PredicateV::Floor(term) => {
            lemma_inner_term_more(environment, fuel, term, assumptions, scope, remaining, more);
        },
        PredicateV::Equals(left, right) | PredicateV::In(left, right) => {
            lemma_inner_term_more(environment, fuel, left, assumptions, scope, remaining, more);
            lemma_inner_term_more(environment, fuel, right, assumptions, scope, remaining, more);
        },
        PredicateV::Not(inner) | PredicateV::Exists(_, inner) | PredicateV::Forall(_, inner) => {
            lemma_inner_predicate_more(
                environment,
                fuel,
                *inner,
                assumptions,
                scope,
                remaining,
                more,
            );
        },
        PredicateV::Implies(left, right) | PredicateV::Iff(left, right) => {
            lemma_inner_predicate_more(
                environment,
                fuel,
                *left,
                assumptions,
                scope,
                remaining,
                more,
            );
            lemma_inner_predicate_more(
                environment,
                fuel,
                *right,
                assumptions,
                scope,
                remaining,
                more,
            );
        },
        PredicateV::And(inner) => {
            lemma_inner_conjunction_more(environment, fuel, inner, scope, remaining, more);
        },
        PredicateV::Or(inner) => {
            lemma_disjuncts_more(
                environment,
                fuel,
                inner,
                Seq::empty(),
                assumptions,
                scope,
                remaining,
                more,
                0,
            );
        },
        _ => {},
    }
}

proof fn lemma_inner_conjunction_more<'a, K: Kernel, S: SmtSolver>(
    environment: Environment<'a, K, S>,
    fuel: nat,
    inner: Seq<PredicateV>,
    scope: ScopeV,
    remaining: usize,
    more: usize,
)
    requires
        remaining <= more,
        inner_conjunction_simplified(environment, fuel, inner, scope, remaining) is Ok,
    ensures
        inner_conjunction_simplified(environment, fuel, inner, scope, more)
            == inner_conjunction_simplified(environment, fuel, inner, scope, remaining),
    decreases fuel, 0int, 0int,
{
    reveal(inner_conjunction_simplified);
    reveal(predicates_simplified);
    if fuel > 0 {
        lemma_predicates_more(environment, (fuel - 1) as nat, inner, scope, remaining, more);
    }
}

proof fn lemma_parts_more<'a, K: Kernel, S: SmtSolver>(
    environment: Environment<'a, K, S>,
    fuel: nat,
    parts: Seq<PredicateV>,
    done: Seq<PredicateV>,
    scope: ScopeV,
    remaining: usize,
    more: usize,
    from: int,
)
    requires
        remaining <= more,
        parts_simplified(environment, fuel, parts, done, scope, remaining, from) is Ok,
    ensures
        parts_simplified(environment, fuel, parts, done, scope, more, from) == parts_simplified(
            environment,
            fuel,
            parts,
            done,
            scope,
            remaining,
            from,
        ),
    decreases fuel, 59int, parts.len() - from,
{
    reveal(parts_simplified);
    reveal(predicate_simplified);
    if 0 <= from < parts.len() {
        let assumptions = part_assumptions(parts, scope.known, from);
        let inner = part_scope(scope, parts, from);
        lemma_predicate_more(
            environment,
            fuel,
            parts[from],
            assumptions,
            inner,
            remaining,
            more,
        );
        let predicate = predicate_simplified(
            environment,
            fuel,
            parts[from],
            assumptions,
            inner,
            remaining,
        )->Ok_0;
        lemma_parts_more(
            environment,
            fuel,
            parts,
            done.push(predicate),
            scope,
            remaining,
            more,
            from + 1,
        );
    }
}

proof fn lemma_predicates_more<'a, K: Kernel, S: SmtSolver>(
    environment: Environment<'a, K, S>,
    fuel: nat,
    predicates: Seq<PredicateV>,
    scope: ScopeV,
    remaining: usize,
    more: usize,
)
    requires
        remaining <= more,
        predicates_simplified(environment, fuel, predicates, scope, remaining) is Ok,
    ensures
        predicates_simplified(environment, fuel, predicates, scope, more)
            == predicates_simplified(environment, fuel, predicates, scope, remaining),
    decreases fuel, 60int, remaining,
{
    reveal(predicates_simplified);
    reveal(parts_simplified);
    let parts = conjuncts_of(predicates);
    lemma_parts_more(environment, fuel, parts, Seq::empty(), scope, remaining, more, 0);
    let simple = parts_simplified(
        environment,
        fuel,
        parts,
        Seq::empty(),
        scope,
        remaining,
        0,
    )->Ok_0;
    let tidied = tidy_parts(*environment.definition, simple);
    if tidied != parts && remaining > 0 {
        lemma_predicates_more(
            environment,
            fuel,
            tidied,
            scope,
            (remaining - 1) as usize,
            (more - 1) as usize,
        );
    }
}

// ---------------------------------------------------------------------------------------------
// Simple conjunctions
// ---------------------------------------------------------------------------------------------
/// Whether predicates are parts of a conjunction: none is a conjunction, and none occurs twice.
pub open spec fn flat(predicates: Seq<PredicateV>) -> bool {
    &&& forall|i: int| 0 <= i < predicates.len() ==> !((#[trigger] predicates[i]) is And)
    &&& forall|i: int, j: int|
        0 <= i < j < predicates.len() ==> (#[trigger] predicates[i]) != (#[trigger] predicates[j])
}

/// Whether predicates are a conjunction in its simplest form: flat, without `true`, and `false`
/// alone.
pub open spec fn tidy(predicates: Seq<PredicateV>) -> bool {
    &&& flat(predicates)
    &&& !predicates.contains(PredicateV::True)
    &&& predicates.contains(PredicateV::False) ==> predicates == seq![PredicateV::False]
}

proof fn lemma_flat_push(found: Seq<PredicateV>, predicate: PredicateV)
    requires
        flat(found),
        !(predicate is And),
    ensures
        flat(push_unique(found, predicate)),
{
    let after = push_unique(found, predicate);
    if !found.contains(predicate) {
        assert forall|i: int, j: int| 0 <= i < j < after.len() implies (#[trigger] after[i]) != (
        #[trigger] after[j]) by {
            assert(after[i] == found[i]);
            if j < found.len() {
                assert(after[j] == found[j]);
            } else if found[i] == predicate {
                assert(found.contains(predicate));
            }
        }
    }
}

proof fn lemma_flat_conjuncts(predicate: PredicateV, found: Seq<PredicateV>)
    requires
        flat(found),
    ensures
        flat(conjuncts_into(predicate, found)),
    decreases predicate, 0int,
{
    match predicate {
        PredicateV::And(inner) => {
            lemma_flat_all(inner, found, 0);
        },
        _ => {
            lemma_flat_push(found, predicate);
        },
    }
}

proof fn lemma_flat_all(predicates: Seq<PredicateV>, found: Seq<PredicateV>, from: int)
    requires
        flat(found),
    ensures
        flat(all_conjuncts_into(predicates, found, from)),
    decreases predicates, predicates.len() - from,
{
    if 0 <= from < predicates.len() {
        lemma_flat_conjuncts(predicates[from], found);
        lemma_flat_all(predicates, conjuncts_into(predicates[from], found), from + 1);
    }
}

proof fn lemma_flat_is_kept(predicates: Seq<PredicateV>, from: int)
    requires
        flat(predicates),
        0 <= from <= predicates.len(),
    ensures
        all_conjuncts_into(predicates, predicates.take(from), from) == predicates,
    decreases predicates.len() - from,
{
    if from < predicates.len() {
        let found = predicates.take(from);
        let next = predicates[from];
        if found.contains(next) {
            let i = choose|i: int| 0 <= i < found.len() && found[i] == next;
            assert(predicates[i] == next);
        }
        assert(conjuncts_into(next, found) == push_unique(found, next));
        assert(push_unique(found, next) == found.push(next));
        assert(found.push(next) =~= predicates.take(from + 1));
        lemma_flat_is_kept(predicates, from + 1);
    } else {
        assert(predicates.take(from) =~= predicates);
    }
}

proof fn lemma_tidy_parts<K: Kernel>(
    definition: BackendDefinition<K>,
    simple: Seq<PredicateV>,
)
    ensures
        !tidy_parts(definition, simple).contains(PredicateV::True),
        tidy_parts(definition, simple).contains(PredicateV::False) ==> tidy_parts(
            definition,
            simple,
        ) == seq![PredicateV::False],
{
    law_difference(simple, seq![PredicateV::True], PredicateV::True);
    law_difference(simple, seq![PredicateV::True], PredicateV::False);
    assert(seq![PredicateV::True].contains(PredicateV::True)) by {
        assert(seq![PredicateV::True][0] == PredicateV::True);
    }
    let result = tidy_parts(definition, simple);
    if result == seq![PredicateV::False] {
        assert forall|i: int| 0 <= i < result.len() implies result[i] != PredicateV::True by {}
    }
}

proof fn lemma_fixed<'a, K: Kernel, S: SmtSolver>(
    environment: Environment<'a, K, S>,
    fuel: nat,
    predicates: Seq<PredicateV>,
    scope: ScopeV,
    remaining: usize,
    most: usize,
)
    requires
        remaining <= most,
        predicates_simplified(environment, fuel, predicates, scope, remaining) is Ok,
    ensures
        ({
            let result = predicates_simplified(
                environment,
                fuel,
                predicates,
                scope,
                remaining,
            )->Ok_0;
            tidy(result) && predicates_simplified(environment, fuel, result, scope, most) == Ok::<
                Seq<PredicateV>,
                SimplificationErrorV,
            >(result)
        }),
    decreases remaining,
{
    reveal(predicates_simplified);
    reveal(parts_simplified);
    let parts = conjuncts_of(predicates);
    let simple = parts_simplified(
        environment,
        fuel,
        parts,
        Seq::empty(),
        scope,
        remaining,
        0,
    )->Ok_0;
    let tidied = tidy_parts(*environment.definition, simple);
    if tidied == parts {
        lemma_flat_all(predicates, Seq::empty(), 0);
        lemma_tidy_parts(*environment.definition, simple);
        assert(parts.take(0) =~= Seq::empty());
        lemma_flat_is_kept(parts, 0);
        lemma_parts_more(environment, fuel, parts, Seq::empty(), scope, remaining, most, 0);
    } else {
        lemma_fixed(environment, fuel, tidied, scope, (remaining - 1) as usize, most);
    }
}

/// A conjunction that is simplified to the end is tidy: it holds no conjunction, no `true`, nothing
/// twice, and `false` only alone. To simplify it again changes nothing.
pub proof fn law_simplified_conjunction<K: Kernel, S: SmtSolver>(
    definition: &BackendDefinition<K>,
    solver: &S,
    predicates: Seq<PredicateV>,
    known: Seq<PredicateV>,
    options: SimplificationOptions,
)
    requires
        options.budget is Fail,
        conjunction_simplified(definition, solver, predicates, known, options) is Ok,
    ensures
        ({
            let result = conjunction_simplified(
                definition,
                solver,
                predicates,
                known,
                options,
            )->Ok_0;
            tidy(result) && conjunction_simplified(definition, solver, result, known, options)
                == Ok::<Seq<PredicateV>, SimplificationErrorV>(result)
        }),
{
    lemma_fixed(
        Environment { definition, solver },
        SIMPLIFICATION_DEPTH as nat,
        predicates,
        initial_scope(known, strict(options)),
        options.max_iterations,
        options.max_iterations,
    );
}

// ---------------------------------------------------------------------------------------------
// Terms with a partial result
// ---------------------------------------------------------------------------------------------
/// What the outcome `kept`, where partial results are kept, is to the outcome `failed`, where they
/// are not. Where no iterations lack, it is the same. Where they do, it is a result that says so
/// and gives their number, or an error of another kind.
pub open spec fn partial_outcome(
    failed: TermOutcome,
    kept: TermOutcome,
    options: SimplificationOptions,
) -> bool {
    &&& match failed {
        Ok(result) => kept == failed && result.exhausted is None,
        Err(error) => if error is IterationLimit {
            kept is Ok ==> kept->Ok_0.exhausted is Some
        } else {
            kept == failed
        },
    }
    &&& match kept {
        Ok(result) => match result.exhausted {
            Some(exhausted) => exhausted == (BudgetExhaustion {
                limit: options.max_iterations,
                subject: BudgetSubject::Term,
            }),
            None => true,
        },
        Err(error) => !iterations_spent(error),
    }
}

proof fn lemma_alternatives_unspent<'a, K: Kernel, S: SmtSolver>(
    environment: Environment<'a, K, S>,
    fuel: nat,
    rule: RewriteRuleV,
    term: TermV,
    substitution: SubstitutionV,
    alternatives: Seq<EquationAlternativeV>,
    live: Seq<(TermV, Seq<PredicateV>)>,
    scope: ScopeV,
    from: int,
)
    ensures
        match alternatives_judged(
            environment,
            fuel,
            rule,
            term,
            substitution,
            alternatives,
            live,
            scope,
            from,
        ) {
            Ok(_) => true,
            Err(error) => !iterations_spent(error),
        },
    decreases alternatives.len() - from,
{
    reveal(alternatives_judged);
    reveal(ensures_evaluated);
    if 0 <= from < alternatives.len() {
        if let Ok(verdict) = ensures_evaluated(
            environment,
            fuel,
            rule.attributes.unique_id,
            term,
            predicates_substituted(alternatives[from].ensures, substitution),
            scope,
        ) {
            lemma_alternatives_unspent(
                environment,
                fuel,
                rule,
                term,
                substitution,
                alternatives,
                live_with(live, alternatives[from], rule.rhs is Disjunction, verdict),
                scope,
                from + 1,
            );
        }
    }
}

proof fn lemma_condition_unspent<'a, K: Kernel, S: SmtSolver>(
    environment: Environment<'a, K, S>,
    fuel: nat,
    rule_id: Seq<char>,
    anchor: Option<TermV>,
    predicates: Seq<PredicateV>,
    scope: ScopeV,
)
    ensures
        match condition_evaluated(environment, fuel, rule_id, anchor, predicates, scope) {
            Ok(_) => true,
            Err(error) => !iterations_spent(error),
        },
{
    reveal(condition_evaluated);
}

#[verifier::spinoff_prover]
proof fn lemma_top_rules_unspent<'a, K: Kernel, S: SmtSolver>(
    environment: Environment<'a, K, S>,
    fuel: nat,
    rules: Seq<RewriteRuleV>,
    term: TermV,
    scope: ScopeV,
    from: int,
)
    ensures
        match top_equation_in_rules(environment, fuel, rules, term, scope, from) {
            Ok(_) => true,
            Err(error) => !iterations_spent(error),
        },
    decreases rules.len() - from,
{
    reveal(top_equation_in_rules);
    if 0 <= from < rules.len() {
        lemma_top_rules_unspent(environment, fuel, rules, term, scope, from + 1);
        let rule = rules[from];
        if let EquationMatchV::Found(substitution) = equation_matched(
            environment.definition,
            rule.lhs,
            term,
        ) {
            lemma_condition_unspent(
                environment,
                fuel,
                rule.attributes.unique_id,
                Some(term),
                match_conditions(*environment.definition, rule.requires, substitution),
                scope,
            );
        }
    }
}

proof fn lemma_top_groups_unspent<'a, K: Kernel, S: SmtSolver>(
    environment: Environment<'a, K, S>,
    fuel: nat,
    groups: GroupsV,
    term: TermV,
    scope: ScopeV,
    from: int,
)
    ensures
        match top_equation_in_groups(environment, fuel, groups, term, scope, from) {
            Ok(_) => true,
            Err(error) => !iterations_spent(error),
        },
    decreases groups.len() - from,
{
    reveal(top_equation_in_groups);
    reveal(top_equation_in_rules);
    if 0 <= from < groups.len() {
        lemma_top_rules_unspent(environment, fuel, groups[from].1, term, scope, 0);
        lemma_top_groups_unspent(environment, fuel, groups, term, scope, from + 1);
    }
}

proof fn lemma_top_unspent<'a, K: Kernel, S: SmtSolver>(
    environment: Environment<'a, K, S>,
    fuel: nat,
    term: TermV,
    scope: ScopeV,
)
    ensures
        match top_equation(environment, fuel, term, scope) {
            Ok(_) => true,
            Err(error) => !iterations_spent(error),
        },
{
    reveal(top_equation);
    reveal(top_equation_in_groups);
    lemma_top_groups_unspent(
        environment,
        fuel,
        groups_for(environment.definition.simplification_theory@, index_of(term)),
        term,
        scope,
        0,
    );
}

proof fn lemma_equation_unspent<'a, K: Kernel, S: SmtSolver>(
    environment: Environment<'a, K, S>,
    fuel: nat,
    rule: RewriteRuleV,
    term: TermV,
    scope: ScopeV,
)
    ensures
        match equation_applied(environment, fuel, rule, term, scope) {
            Ok(EquationAttempt::Applied(result)) => result.exhausted is None,
            Ok(_) => true,
            Err(error) => !iterations_spent(error),
        },
{
    reveal(equation_applied);
    reveal(condition_evaluated);
    reveal(alternatives_judged);
    if let EquationMatchV::Found(substitution) = equation_matched(
        environment.definition,
        rule.lhs,
        term,
    ) {
        lemma_alternatives_unspent(
            environment,
            fuel,
            rule,
            term,
            substitution,
            alternatives_of(rule, term, substitution),
            Seq::empty(),
            scope,
            0,
        );
    }
}

proof fn lemma_group_unspent<'a, K: Kernel, S: SmtSolver>(
    environment: Environment<'a, K, S>,
    fuel: nat,
    rules: Seq<RewriteRuleV>,
    open: bool,
    term: TermV,
    scope: ScopeV,
    from: int,
)
    ensures
        match group_scanned(environment, fuel, rules, open, term, scope, from) {
            Ok(GroupScan::Applied(result)) => result.exhausted is None,
            Ok(_) => true,
            Err(error) => !iterations_spent(error),
        },
    decreases rules.len() - from,
{
    reveal(group_scanned);
    reveal(equation_applied);
    if 0 <= from < rules.len() {
        lemma_equation_unspent(environment, fuel, rules[from], term, scope);
        lemma_group_unspent(environment, fuel, rules, open, term, scope, from + 1);
        lemma_group_unspent(environment, fuel, rules, true, term, scope, from + 1);
    }
}

proof fn lemma_theory_unspent<'a, K: Kernel, S: SmtSolver>(
    environment: Environment<'a, K, S>,
    fuel: nat,
    groups: GroupsV,
    block: bool,
    term: TermV,
    scope: ScopeV,
    from: int,
)
    ensures
        match theory_applied(environment, fuel, groups, block, term, scope, from) {
            Ok(Some(result)) => result.exhausted is None,
            Ok(None) => true,
            Err(error) => !iterations_spent(error),
        },
    decreases groups.len() - from,
{
    reveal(theory_applied);
    reveal(group_scanned);
    if 0 <= from < groups.len() {
        lemma_group_unspent(environment, fuel, groups[from].1, false, term, scope, 0);
        lemma_theory_unspent(environment, fuel, groups, block, term, scope, from + 1);
    }
}

proof fn lemma_root_unspent<'a, K: Kernel, S: SmtSolver>(
    environment: Environment<'a, K, S>,
    fuel: nat,
    term: TermV,
    scope: ScopeV,
)
    ensures
        match root_simplified(environment, fuel, term, scope) {
            Ok(result) => result.exhausted is None,
            Err(error) => !iterations_spent(error),
        },
{
    reveal(root_simplified);
    reveal(equations_applied);
    reveal(theory_applied);
    lemma_theory_unspent(
        environment,
        fuel,
        groups_for(environment.definition.function_theory@, index_of(term)),
        true,
        term,
        scope,
        0,
    );
    lemma_theory_unspent(
        environment,
        fuel,
        groups_for(environment.definition.simplification_theory@, index_of(term)),
        false,
        term,
        scope,
        0,
    );
}

#[verifier::spinoff_prover]
proof fn lemma_term_partial<'a, K: Kernel, S: SmtSolver>(
    environment: Environment<'a, K, S>,
    fuel: nat,
    term: TermV,
    before: SimplificationV,
    path: PathConditionReplacementsV,
    scope: ScopeV,
    remaining: usize,
)
    requires
        scope.options.budget is KeepPartial,
        before.exhausted is None,
    ensures
        partial_outcome(
            term_simplified(
                environment,
                fuel,
                term,
                before,
                path,
                strict_scope(scope),
                remaining,
            ),
            term_simplified(environment, fuel, term, before, path, scope, remaining),
            scope.options,
        ),
    decreases fuel, 30int, remaining,
{
    reveal(term_simplified);
    reveal(children_simplified);
    reveal(root_simplified);
    let firm = strict_scope(scope);
    assert(strict_scope(firm) == firm);
    let current = path_applied(path, term);
    if !evaluated(current) {
        lemma_children_partial(environment, fuel, current, path, scope, remaining);
        if let Ok(inner) = children_simplified(
            environment,
            fuel,
            current,
            path,
            scope,
            remaining,
        ) {
            lemma_root_unspent(environment, fuel, inner.term, firm);
        }
        if let Ok(inner) = children_simplified(
            environment,
            fuel,
            current,
            path,
            firm,
            remaining,
        ) {
            lemma_root_unspent(environment, fuel, inner.term, firm);
            if let Ok(root) = root_simplified(environment, fuel, inner.term, firm) {
                let reached = joined(joined(before, inner), root);
                assert(reached.exhausted is None);
                if !(root.term == inner.term || evaluated(root.term)) && remaining > 0 {
                    lemma_term_partial(
                        environment,
                        fuel,
                        root.term,
                        reached,
                        path,
                        scope,
                        (remaining - 1) as usize,
                    );
                }
            }
        }
    }
}

proof fn lemma_subterm_partial<'a, K: Kernel, S: SmtSolver>(
    environment: Environment<'a, K, S>,
    fuel: nat,
    term: TermV,
    path: PathConditionReplacementsV,
    scope: ScopeV,
    remaining: usize,
)
    requires
        scope.options.budget is KeepPartial,
    ensures
        partial_outcome(
            subterm_simplified(environment, fuel, term, path, strict_scope(scope), remaining),
            subterm_simplified(environment, fuel, term, path, scope, remaining),
            scope.options,
        ),
    decreases fuel, 0int, 0int,
{
    reveal(subterm_simplified);
    reveal(term_simplified);
    if fuel > 0 {
        lemma_term_partial(
            environment,
            (fuel - 1) as nat,
            term,
            unchanged(term),
            path,
            scope,
            remaining,
        );
    }
}

proof fn lemma_kids_spent<'a, K: Kernel, S: SmtSolver>(
    environment: Environment<'a, K, S>,
    fuel: nat,
    term: TermV,
    from: int,
    kids: Seq<TermV>,
    before: SimplificationV,
    path: PathConditionReplacementsV,
    scope: ScopeV,
    remaining: usize,
)
    requires
        scope.options.budget is KeepPartial,
        before.exhausted is Some,
    ensures
        match kids_simplified(
            environment,
            fuel,
            term,
            from,
            kids,
            before,
            path,
            scope,
            remaining,
        ) {
            Ok((_, done)) => done.exhausted == before.exhausted,
            Err(error) => !iterations_spent(error),
        },
    decreases fuel, 20int, children(term).len() - from,
{
    reveal(kids_simplified);
    reveal(subterm_simplified);
    if 0 <= from < children(term).len() {
        lemma_subterm_partial(
            environment,
            fuel,
            children(term)[from],
            path,
            scope,
            remaining,
        );
        if let Ok(kid) = subterm_simplified(
            environment,
            fuel,
            children(term)[from],
            path,
            scope,
            remaining,
        ) {
            lemma_kids_spent(
                environment,
                fuel,
                term,
                from + 1,
                kids.push(kid.term),
                joined(before, kid),
                path,
                scope,
                remaining,
            );
        }
    }
}

#[verifier::spinoff_prover]
proof fn lemma_kids_partial<'a, K: Kernel, S: SmtSolver>(
    environment: Environment<'a, K, S>,
    fuel: nat,
    term: TermV,
    from: int,
    kids: Seq<TermV>,
    before: SimplificationV,
    path: PathConditionReplacementsV,
    scope: ScopeV,
    remaining: usize,
)
    requires
        scope.options.budget is KeepPartial,
        before.exhausted is None,
    ensures
        partial_outcome(
            rebuilt(
                term,
                kids_simplified(
                    environment,
                    fuel,
                    term,
                    from,
                    kids,
                    before,
                    path,
                    strict_scope(scope),
                    remaining,
                ),
            ),
            rebuilt(
                term,
                kids_simplified(
                    environment,
                    fuel,
                    term,
                    from,
                    kids,
                    before,
                    path,
                    scope,
                    remaining,
                ),
            ),
            scope.options,
        ),
    decreases fuel, 20int, children(term).len() - from,
{
    reveal(kids_simplified);
    reveal(subterm_simplified);
    if 0 <= from < children(term).len() {
        let child = children(term)[from];
        let firm = strict_scope(scope);
        lemma_subterm_partial(environment, fuel, child, path, scope, remaining);
        let failed = subterm_simplified(environment, fuel, child, path, firm, remaining);
        let kept = subterm_simplified(environment, fuel, child, path, scope, remaining);
        if let Ok(kid) = kept {
            let next = joined(before, kid);
            if failed is Ok {
                lemma_kids_partial(
                    environment,
                    fuel,
                    term,
                    from + 1,
                    kids.push(kid.term),
                    next,
                    path,
                    scope,
                    remaining,
                );
            } else {
                lemma_kids_spent(
                    environment,
                    fuel,
                    term,
                    from + 1,
                    kids.push(kid.term),
                    next,
                    path,
                    scope,
                    remaining,
                );
            }
        }
    }
}

#[verifier::spinoff_prover]
proof fn lemma_children_partial<'a, K: Kernel, S: SmtSolver>(
    environment: Environment<'a, K, S>,
    fuel: nat,
    term: TermV,
    path: PathConditionReplacementsV,
    scope: ScopeV,
    remaining: usize,
)
    requires
        scope.options.budget is KeepPartial,
    ensures
        partial_outcome(
            children_simplified(environment, fuel, term, path, strict_scope(scope), remaining),
            children_simplified(environment, fuel, term, path, scope, remaining),
            scope.options,
        ),
    decreases fuel, 25int, 0int,
{
    reveal(children_simplified);
    reveal(subterm_simplified);
    reveal(kids_simplified);
    reveal(top_equation);
    let firm = strict_scope(scope);
    assert(strict_scope(firm) == firm);
    let none = Seq::<TermV>::empty();
    match term {
        TermV::DomainValue { .. } | TermV::Variable(_) => {},
        TermV::And(left, right) => {
            lemma_top_unspent(environment, fuel, *left, firm);
            lemma_top_unspent(environment, fuel, *right, firm);
            lemma_subterm_partial(environment, fuel, *left, path, scope, remaining);
            lemma_subterm_partial(environment, fuel, *right, path, scope, remaining);
            lemma_kids_partial(
                environment,
                fuel,
                term,
                0,
                none,
                unchanged(term),
                path,
                scope,
                remaining,
            );
        },
        _ => {
            lemma_kids_partial(
                environment,
                fuel,
                term,
                0,
                none,
                unchanged(term),
                path,
                scope,
                remaining,
            );
        },
    }
}

/// Where partial results are kept, a term simplifies as it does where they are not, unless the
/// iterations do not suffice. It never fails for want of them: what comes out is then a result that
/// says that they were used up, and their number, or an error of another kind.
pub proof fn law_partial_terms_are_kept<K: Kernel, S: SmtSolver>(
    definition: &BackendDefinition<K>,
    solver: &S,
    term: TermV,
    known: Seq<PredicateV>,
    options: SimplificationOptions,
)
    requires
        options.budget is KeepPartial,
    ensures
        partial_outcome(
            simplified(definition, solver, term, known, strict(options)),
            simplified(definition, solver, term, known, options),
            options,
        ),
        match simplified(definition, solver, term, known, options) {
            Ok(_) => true,
            Err(error) => !(error is IterationLimit) && !(error is PredicateIterationLimit),
        },
{
    let scope = initial_scope(known, options);
    assert(strict_scope(scope) == initial_scope(known, strict(options)));
    lemma_term_partial(
        Environment { definition, solver },
        SIMPLIFICATION_DEPTH as nat,
        term,
        unchanged(term),
        replacements_of(conjunctive_equalities(known, Seq::empty(), 0)),
        scope,
        options.max_iterations,
    );
}

} // verus!
