//! Simplification of terms, predicates and patterns.

use vstd::prelude::*;
use crate::definition::BackendDefinition;
use crate::diagnostic::{
    exhaustion_diagnostic, exhaustion_told, predicate_diagnostic, predicate_told, tell, told,
    BackendDiagnosticV,
};
use crate::equations::{conjuncts_of, predicate_conjunct_index};
use crate::index::{extend_unique, unique_extension};
use crate::kernel::{result_view, Kernel};
use crate::model::{deep, group_deep, Value};
use crate::path::{conjunctive_equalities, replacements_of, PathConditionReplacements};
use crate::pattern::{
    extracted, normalize_pattern_substitution, retain_substitution_predicates, retained_from,
    substitution_normalized, Pattern, PatternV,
};
use crate::predicate::{lemma_predicate_view, Predicate, PredicateV};
use crate::simplify::{
    simplify_predicate_with_budget, simplify_predicates_with_budget, simplify_with_budget,
};
use crate::simplify_parts::{
    make_strict, strict, unchanged, Assumptions, AssumptionsV, Environment, Scope, ScopeV,
};
use crate::simplify_spec::{predicate_simplified, predicates_simplified, term_simplified};
use crate::simplify_types::{
    BudgetExhaustion, BudgetPolicy, BudgetSubject, PatternSimplification, PatternSimplificationV,
    Simplification, SimplificationError, SimplificationErrorV, SimplificationOptions,
    SimplificationV,
};
use crate::solver::{NoSolver, SmtError, SmtErrorV, SmtSolver, Validity, ValidityV};
use crate::substitution::{Substitution, SubstitutionV};
use crate::term::{Term, TermV};

verus! {

broadcast use group_deep;

/// How deeply terms, predicates and conditions are simplified by one another.
pub const SIMPLIFICATION_DEPTH: usize = usize::MAX;

/// The scope at the start.
pub open spec fn initial_scope(known: Seq<PredicateV>, options: SimplificationOptions) -> ScopeV {
    ScopeV { known, options, active: Seq::empty() }
}

/// What a term simplifies to where `known` holds.
pub open spec fn simplified<K: Kernel, S: SmtSolver>(
    definition: &BackendDefinition<K>,
    solver: &S,
    term: TermV,
    known: Seq<PredicateV>,
    options: SimplificationOptions,
) -> Result<SimplificationV, SimplificationErrorV> {
    term_simplified(
        Environment { definition, solver },
        SIMPLIFICATION_DEPTH as nat,
        term,
        unchanged(term),
        replacements_of(conjunctive_equalities(known, Seq::empty(), 0)),
        initial_scope(known, options),
        options.max_iterations,
    )
}

/// Simplify a term without a solver.
pub fn simplify<K: Kernel>(
    definition: &BackendDefinition<K>,
    term: &Term,
    options: SimplificationOptions,
) -> (result: Result<Simplification, SimplificationError>)
    ensures
        result_view(result) == simplified(definition, &NoSolver, term@, Seq::empty(), options),
{
    simplify_with_solver(definition, term, &Vec::new(), options, &NoSolver)
}

/// Simplify a term where the known predicates hold.
#[verifier::spinoff_prover]
pub fn simplify_with_solver<K: Kernel, S: SmtSolver>(
    definition: &BackendDefinition<K>,
    term: &Term,
    known_predicates: &Vec<Predicate>,
    options: SimplificationOptions,
    solver: &S,
) -> (result: Result<Simplification, SimplificationError>)
    ensures
        result_view(result) == simplified(
            definition,
            solver,
            term@,
            deep(known_predicates@),
            options,
        ),
        match result {
            Ok(result) => told(definition.kernel, exhaustion_told(result.exhausted)),
            Err(_) => true,
        },
{
    let active: Vec<(String, Term)> = Vec::new();
    let scope = Scope { known: known_predicates, options, active: &active };
    let environment = Environment { definition, solver };
    let path = PathConditionReplacements::new(known_predicates);
    let result = simplify_with_budget(
        &environment,
        SIMPLIFICATION_DEPTH,
        term,
        &path,
        &scope,
        options.max_iterations,
    );
    if let Ok(simplified) = &result {
        tell(&definition.kernel, exhaustion_diagnostic(simplified.exhausted));
    }
    result
}

/// Whether an error says that the iterations were used up.
pub open spec fn iterations_spent(error: SimplificationErrorV) -> bool {
    error is IterationLimit || error is PredicateIterationLimit
}

/// What a conjunction of predicates simplifies to where `known` holds.
pub open spec fn conjunction_simplified<K: Kernel, S: SmtSolver>(
    definition: &BackendDefinition<K>,
    solver: &S,
    predicates: Seq<PredicateV>,
    known: Seq<PredicateV>,
    options: SimplificationOptions,
) -> Result<Seq<PredicateV>, SimplificationErrorV> {
    match predicates_simplified(
        Environment { definition, solver },
        SIMPLIFICATION_DEPTH as nat,
        predicates,
        initial_scope(known, strict(options)),
        options.max_iterations,
    ) {
        Ok(result) => Ok(result),
        Err(error) => if iterations_spent(error) && options.budget is KeepPartial {
            Ok(predicates)
        } else {
            Err(error)
        },
    }
}

/// What a conjunction of predicates simplifies to where `known` holds, and, where the predicates
/// were kept because the iterations were used up, a record of that.
pub open spec fn conjunction_recorded<K: Kernel, S: SmtSolver>(
    definition: &BackendDefinition<K>,
    solver: &S,
    predicates: Seq<PredicateV>,
    known: Seq<PredicateV>,
    options: SimplificationOptions,
) -> Result<(Seq<PredicateV>, Option<BudgetExhaustion>), SimplificationErrorV> {
    match predicates_simplified(
        Environment { definition, solver },
        SIMPLIFICATION_DEPTH as nat,
        predicates,
        initial_scope(known, strict(options)),
        options.max_iterations,
    ) {
        Ok(result) => Ok((result, None)),
        Err(error) => if iterations_spent(error) && options.budget is KeepPartial {
            Ok(
                (
                    predicates,
                    Some(
                        BudgetExhaustion {
                            limit: options.max_iterations,
                            subject: BudgetSubject::Predicates,
                        },
                    ),
                ),
            )
        } else {
            Err(error)
        },
    }
}

/// Simplify a conjunction of predicates, and tell whether the iterations were used up. Where they
/// were and a partial result is to be kept, the predicates stay as they are.
#[verifier::spinoff_prover]
pub fn simplify_predicates_with_record<K: Kernel, S: SmtSolver>(
    definition: &BackendDefinition<K>,
    predicates: &Vec<Predicate>,
    known_predicates: &Vec<Predicate>,
    options: SimplificationOptions,
    solver: &S,
) -> (result: Result<(Vec<Predicate>, Option<BudgetExhaustion>), SimplificationError>)
    ensures
        result_view(result) == conjunction_recorded(
            definition,
            solver,
            deep(predicates@),
            deep(known_predicates@),
            options,
        ),
{
    let active: Vec<(String, Term)> = Vec::new();
    let scope = make_strict(&Scope { known: known_predicates, options, active: &active });
    let environment = Environment { definition, solver };
    match simplify_predicates_with_budget(
        &environment,
        SIMPLIFICATION_DEPTH,
        predicates,
        &scope,
        options.max_iterations,
    ) {
        Ok(result) => Ok((result, None)),
        Err(error) => {
            let spent: bool = matches!(
                error,
                SimplificationError::IterationLimit { .. }
                    | SimplificationError::PredicateIterationLimit { .. }
            );
            if spent && matches!(options.budget, BudgetPolicy::KeepPartial) {
                let exhausted = BudgetExhaustion {
                    limit: options.max_iterations,
                    subject: BudgetSubject::Predicates,
                };
                Ok((predicates.duplicate(), Some(exhausted)))
            } else {
                Err(error)
            }
        },
    }
}

/// Simplify a conjunction of predicates. Where the iterations are used up and a partial result is
/// to be kept, the predicates stay as they are.
pub fn simplify_predicates_with_solver<K: Kernel, S: SmtSolver>(
    definition: &BackendDefinition<K>,
    predicates: &Vec<Predicate>,
    known_predicates: &Vec<Predicate>,
    options: SimplificationOptions,
    solver: &S,
) -> (result: Result<Vec<Predicate>, SimplificationError>)
    ensures
        result_view(result) == conjunction_simplified(
            definition,
            solver,
            deep(predicates@),
            deep(known_predicates@),
            options,
        ),
        match conjunction_recorded(
            definition,
            solver,
            deep(predicates@),
            deep(known_predicates@),
            options,
        ) {
            Ok((_, exhausted)) => told(definition.kernel, exhaustion_told(exhausted)),
            Err(_) => true,
        },
{
    match simplify_predicates_with_record(definition, predicates, known_predicates, options, solver) {
        Ok((result, exhausted)) => {
            tell(&definition.kernel, exhaustion_diagnostic(exhausted));
            Ok(result)
        },
        Err(error) => Err(error),
    }
}

/// What a predicate by itself simplifies to where `known` holds.
pub open spec fn single_simplified<K: Kernel, S: SmtSolver>(
    definition: &BackendDefinition<K>,
    solver: &S,
    predicate: PredicateV,
    known: Seq<PredicateV>,
    options: SimplificationOptions,
) -> Result<PredicateV, SimplificationErrorV> {
    predicate_simplified(
        Environment { definition, solver },
        SIMPLIFICATION_DEPTH as nat,
        predicate,
        AssumptionsV {
            path: replacements_of(conjunctive_equalities(known, Seq::empty(), 0)),
            conjuncts: conjuncts_of(known),
            excluded: None,
        },
        initial_scope(known, options),
        options.max_iterations,
    )
}

/// Simplify a predicate.
#[verifier::spinoff_prover]
pub fn simplify_predicate_with_solver<K: Kernel, S: SmtSolver>(
    definition: &BackendDefinition<K>,
    predicate: &Predicate,
    known_predicates: &Vec<Predicate>,
    options: SimplificationOptions,
    solver: &S,
) -> (result: Result<Predicate, SimplificationError>)
    ensures
        result_view(result) == single_simplified(
            definition,
            solver,
            predicate@,
            deep(known_predicates@),
            options,
        ),
{
    let active: Vec<(String, Term)> = Vec::new();
    let scope = Scope { known: known_predicates, options, active: &active };
    let environment = Environment { definition, solver };
    let path = PathConditionReplacements::new(known_predicates);
    let known_index = predicate_conjunct_index(known_predicates);
    let assumptions = Assumptions { path: &path, conjuncts: &known_index, excluded: None };
    simplify_predicate_with_budget(
        &environment,
        SIMPLIFICATION_DEPTH,
        predicate,
        &assumptions,
        &scope,
        options.max_iterations,
    )
}

/// What a solver's answer makes of a simplified predicate.
pub open spec fn decided_by_answer(
    predicate: PredicateV,
    answer: Result<ValidityV, SmtErrorV>,
) -> Result<PredicateV, SimplificationErrorV> {
    match answer {
        Ok(ValidityV::Valid) => Ok(PredicateV::True),
        Ok(ValidityV::Invalid) => Ok(PredicateV::False),
        Ok(_) => Ok(predicate),
        Err(SmtErrorV::Unavailable) => Ok(predicate),
        Err(error) => Err(SimplificationErrorV::SmtPredicate { predicate, error }),
    }
}

/// What a solver's answer makes of a simplified predicate.
pub fn judge_predicate(predicate: Predicate, answer: Result<Validity, SmtError>) -> (result: Result<
    Predicate,
    SimplificationError,
>)
    ensures
        result_view(result) == decided_by_answer(predicate@, result_view(answer)),
{
    match answer {
        Ok(Validity::Valid) => Ok(Predicate::constant(true)),
        Ok(Validity::Invalid) => Ok(Predicate::constant(false)),
        Ok(_) => Ok(predicate),
        Err(SmtError::Unavailable) => Ok(predicate),
        Err(error) => Err(
            SimplificationError::SmtPredicate { predicate: Box::new(predicate), error },
        ),
    }
}

/// What is told of a predicate by itself: that the solver, where it is asked, cannot decide it.
pub open spec fn single_doubt<K: Kernel, S: SmtSolver>(
    definition: &BackendDefinition<K>,
    solver: &S,
    predicate: PredicateV,
    known: Seq<PredicateV>,
    options: SimplificationOptions,
) -> Option<BackendDiagnosticV> {
    match single_simplified(definition, solver, predicate, known, options) {
        Err(_) => None,
        Ok(simplified) => if simplified is True || simplified is False {
            None
        } else {
            predicate_told(simplified, solver.validity(known, Seq::empty(), seq![simplified]))
        },
    }
}

/// What a predicate simplifies to, decided by the solver where possible.
pub open spec fn single_decided<K: Kernel, S: SmtSolver>(
    definition: &BackendDefinition<K>,
    solver: &S,
    predicate: PredicateV,
    known: Seq<PredicateV>,
    options: SimplificationOptions,
) -> Result<PredicateV, SimplificationErrorV> {
    match single_simplified(definition, solver, predicate, known, options) {
        Err(error) => Err(error),
        Ok(simplified) => if simplified is True || simplified is False {
            Ok(simplified)
        } else {
            decided_by_answer(
                simplified,
                solver.validity(known, Seq::empty(), seq![simplified]),
            )
        },
    }
}

/// Simplify a predicate and ask the solver whether what is left always or never holds.
#[verifier::spinoff_prover]
pub fn simplify_and_decide_predicate_with_solver<K: Kernel, S: SmtSolver>(
    definition: &BackendDefinition<K>,
    predicate: &Predicate,
    known_predicates: &Vec<Predicate>,
    options: SimplificationOptions,
    solver: &S,
) -> (result: Result<Predicate, SimplificationError>)
    ensures
        result_view(result) == single_decided(
            definition,
            solver,
            predicate@,
            deep(known_predicates@),
            options,
        ),
        told(
            definition.kernel,
            single_doubt(definition, solver, predicate@, deep(known_predicates@), options),
        ),
{
    let simplified = match simplify_predicate_with_solver(
        definition,
        predicate,
        known_predicates,
        options,
        solver,
    ) {
        Ok(simplified) => simplified,
        Err(error) => {
            return Err(error);
        },
    };
    proof {
        lemma_predicate_view(simplified);
    }
    if matches!(simplified, Predicate::True | Predicate::False) {
        return Ok(simplified);
    }
    let mut checked: Vec<Predicate> = Vec::new();
    checked.push(simplified.duplicate());
    assert(deep(checked@) =~= seq![simplified@]);
    let answer = solver.check_predicates(known_predicates, &Substitution::new(), &checked);
    tell(&definition.kernel, predicate_diagnostic(&simplified, &answer));
    judge_predicate(simplified, answer)
}

/// Whether a predicate says that `term`, of sort Bool, is not true.
pub open spec fn refutes(predicate: PredicateV, term: TermV) -> bool
    decreases predicate, 0int,
{
    match predicate {
        PredicateV::Not(inner) => *inner == PredicateV::Term(term),
        PredicateV::And(inner) => any_refutes(inner, term, 0),
        _ => false,
    }
}

/// Whether one of the predicates from `from` on refutes `term`.
pub open spec fn any_refutes(predicates: Seq<PredicateV>, term: TermV, from: int) -> bool
    decreases predicates, predicates.len() - from,
{
    if 0 <= from < predicates.len() {
        refutes(predicates[from], term) || any_refutes(predicates, term, from + 1)
    } else {
        false
    }
}

fn predicate_refutes_term(predicate: &Predicate, term: &Term) -> (result: bool)
    ensures
        result == refutes(predicate@, term@),
    decreases predicate,
{
    proof {
        lemma_predicate_view(*predicate);
    }
    match predicate {
        Predicate::Not(inner) => {
            let inner: &Predicate = inner;
            proof {
                lemma_predicate_view(*inner);
            }
            match inner {
                Predicate::Term(candidate) => candidate.equals(term),
                _ => false,
            }
        },
        Predicate::And(inner) => any_refutes_term(inner, term),
        _ => false,
    }
}

fn any_refutes_term(predicates: &Vec<Predicate>, term: &Term) -> (result: bool)
    ensures
        result == any_refutes(deep(predicates@), term@, 0),
    decreases predicates,
{
    let mut i: usize = 0;
    while i < predicates.len()
        invariant
            i <= predicates.len(),
            any_refutes(deep(predicates@), term@, 0) == any_refutes(
                deep(predicates@),
                term@,
                i as int,
            ),
        decreases predicates.len() - i,
    {
        assert(deep(predicates@)[i as int] == predicates[i as int]@);
        if predicate_refutes_term(&predicates[i], term) {
            return true;
        }
        i += 1;
    }
    false
}

/// The constraints of a pattern whose term is simplified, after they are simplified too: false
/// where one of them refutes the term, else with the bindings that were in the constraints before.
pub open spec fn constraints_retained<K: Kernel>(
    definition: BackendDefinition<K>,
    constraints: Seq<PredicateV>,
    term: TermV,
    substitution: SubstitutionV,
) -> Seq<PredicateV> {
    retained_from(
        definition.sort_graph@,
        if any_refutes(constraints, term, 0) {
            seq![PredicateV::False]
        } else {
            constraints
        },
        substitution,
        0,
    )
}

/// What a pattern simplifies to: its term where its constraints hold, then its constraints with
/// those that the term brought.
pub open spec fn pattern_simplified<K: Kernel, S: SmtSolver>(
    definition: &BackendDefinition<K>,
    solver: &S,
    pattern: PatternV,
    options: SimplificationOptions,
) -> Result<PatternSimplificationV, SimplificationErrorV> {
    let sorts = definition.sort_graph@;
    let substitution = extracted(sorts, None, pattern.constraints).0;
    let start = substitution_normalized(sorts, pattern);
    match simplified(definition, solver, start.term, start.constraints, options) {
        Err(error) => Err(error),
        Ok(result) => match conjunction_simplified(
            definition,
            solver,
            unique_extension(start.constraints, result.constraints),
            Seq::empty(),
            options,
        ) {
            Err(error) => Err(error),
            Ok(constraints) => Ok(
                PatternSimplificationV {
                    pattern: substitution_normalized(
                        sorts,
                        PatternV {
                            term: result.term,
                            constraints: constraints_retained(
                                *definition,
                                constraints,
                                result.term,
                                substitution,
                            ),
                        },
                    ),
                    applied_rules: result.applied_rules,
                    effects: result.effects,
                },
            ),
        },
    }
}

/// Simplify a pattern and keep the equations and effects of its term.
#[verifier::spinoff_prover]
pub(crate) fn simplify_pattern_details_with_solver<K: Kernel, S: SmtSolver>(
    definition: &BackendDefinition<K>,
    pattern: &Pattern,
    options: SimplificationOptions,
    solver: &S,
) -> (result: Result<PatternSimplification, SimplificationError>)
    ensures
        result_view(result) == pattern_simplified(definition, solver, pattern@, options),
{
    let mut start = pattern.duplicate();
    let substitution = normalize_pattern_substitution(&mut start, &definition.sort_graph);
    let simplified = match simplify_with_solver(
        definition,
        &start.term,
        &start.constraints,
        options,
        solver,
    ) {
        Ok(simplified) => simplified,
        Err(error) => {
            return Err(error);
        },
    };
    let mut constraints = start.constraints;
    extend_unique(&mut constraints, simplified.constraints);
    let none: Vec<Predicate> = Vec::new();
    let constraints = match simplify_predicates_with_solver(
        definition,
        &constraints,
        &none,
        options,
        solver,
    ) {
        Ok(constraints) => constraints,
        Err(error) => {
            return Err(error);
        },
    };
    let mut kept = if any_refutes_term(&constraints, &simplified.term) {
        let mut never: Vec<Predicate> = Vec::new();
        never.push(Predicate::constant(false));
        assert(deep(never@) =~= seq![PredicateV::False]);
        never
    } else {
        constraints
    };
    retain_substitution_predicates(&mut kept, &substitution, &definition.sort_graph);
    let mut pattern = Pattern { term: simplified.term, constraints: kept };
    let _ = normalize_pattern_substitution(&mut pattern, &definition.sort_graph);
    Ok(
        PatternSimplification {
            pattern,
            applied_rules: simplified.applied_rules,
            effects: simplified.effects,
        },
    )
}

/// Simplify a constrained term, and keep and normalize its constraints.
#[verifier::spinoff_prover]
pub fn simplify_pattern_with_solver<K: Kernel, S: SmtSolver>(
    definition: &BackendDefinition<K>,
    pattern: &Pattern,
    options: SimplificationOptions,
    solver: &S,
) -> (result: Result<Pattern, SimplificationError>)
    ensures
        result_view(result) == (match pattern_simplified(definition, solver, pattern@, options) {
            Ok(details) => Ok(details.pattern),
            Err(error) => Err(error),
        }),
{
    match simplify_pattern_details_with_solver(definition, pattern, options, solver) {
        Ok(details) => Ok(details.pattern),
        Err(error) => Err(error),
    }
}

/// Where partial results are kept, a conjunction comes back as it is exactly where the iterations do
/// not suffice to simplify it to the end; else the outcome is the same as where they are not kept.
pub proof fn law_partial_results_are_kept<K: Kernel, S: SmtSolver>(
    definition: &BackendDefinition<K>,
    solver: &S,
    predicates: Seq<PredicateV>,
    known: Seq<PredicateV>,
    options: SimplificationOptions,
)
    requires
        options.budget is KeepPartial,
    ensures
        conjunction_simplified(definition, solver, predicates, known, options) == (
        match conjunction_simplified(definition, solver, predicates, known, strict(options)) {
            Ok(result) => Ok(result),
            Err(error) => if iterations_spent(error) {
                Ok(predicates)
            } else {
                Err(error)
            },
        }),
{
}

} // verus!
