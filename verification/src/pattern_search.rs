//! Search for instances of a pattern.

use vstd::prelude::*;
use crate::construct::{occurs, occurs_in};
use crate::definition::BackendDefinition;
use crate::kernel::{result_view, Kernel};
use crate::matcher::{definition_context, match_terms_in_definition, terms_matched};
use crate::matching::{MatchMode, MatchResult, MatchResultV};
use crate::model::{contains, deep, group_deep, Value};
use crate::pattern::{pattern_free_variables, pattern_variables, Pattern, PatternV};
use crate::predicate::{lemma_predicate_view, Predicate, PredicateV};
use crate::predicates::{predicates_substituted, substitute_predicates};
use crate::search::{
    search_graph_with_solver, searched, simplification_incomplete, simplification_incomplete_of,
    simplification_of, simplification_options, SearchConfig,
};
use crate::search_types::{
    IncompleteSearch, IncompleteSearchV, PatternMatch, PatternMatchError, PatternMatchErrorV,
    PatternMatchV, PatternSearchResult, PatternSearchResultV, SearchMatch, SearchMatchV,
    SearchOptions, SearchResult, SearchResultV, SearchState, SearchStateV,
};
use crate::simplification::{conjunction_simplified, simplify_predicates_with_solver};
use crate::simplify_types::SimplificationOptions;
use crate::solver::{NoSolver, Satisfiability, SatisfiabilityV, SmtError, SmtErrorV, SmtSolver};
use crate::step::default_options;
use crate::substitution::{compose, composed, substitute, substituted, Substitution, SubstitutionV};
use crate::term::{lemma_term_view, Term, TermV, Variable, VariableV};
use crate::truth::{conjunction_truth, predicates_truth, Truth};

verus! {

broadcast use group_deep;

// ---------------------------------------------------------------------------------------------
// Solving equalities
// ---------------------------------------------------------------------------------------------
/// What an equality gives under `solved`: that it holds, or the value of a variable; nothing where
/// it gives neither.
pub open spec fn equality_solution(predicate: PredicateV, solved: SubstitutionV) -> Option<
    Option<(VariableV, TermV)>,
> {
    match predicate {
        PredicateV::Equals(left, right) => {
            let left = substituted(left, solved);
            let right = substituted(right, solved);
            if left == right {
                Some(None)
            } else if left is Variable && !occurs(left->Variable_0, right) {
                Some(Some((left->Variable_0, right)))
            } else if right is Variable && !occurs(right->Variable_0, left) {
                Some(Some((right->Variable_0, left)))
            } else {
                None
            }
        },
        _ => None,
    }
}

/// The first constraint from `from` on that is an equality with a solution.
pub open spec fn first_solution(
    constraints: Seq<PredicateV>,
    solved: SubstitutionV,
    from: int,
) -> Option<(int, Option<(VariableV, TermV)>)>
    decreases constraints.len() - from,
{
    if from >= constraints.len() {
        None
    } else {
        match equality_solution(constraints[from], solved) {
            Some(solution) => Some((from, solution)),
            None => first_solution(constraints, solved, from + 1),
        }
    }
}

proof fn lemma_first_solution(constraints: Seq<PredicateV>, solved: SubstitutionV, from: int)
    requires
        0 <= from,
    ensures
        match first_solution(constraints, solved, from) {
            Some((index, _)) => 0 <= index < constraints.len(),
            None => true,
        },
    decreases constraints.len() - from,
{
    if from < constraints.len() && equality_solution(constraints[from], solved) is None {
        lemma_first_solution(constraints, solved, from + 1);
    }
}

proof fn lemma_substituted_len(predicates: Seq<PredicateV>, substitution: SubstitutionV)
    ensures
        predicates_substituted(predicates, substitution).len() == predicates.len(),
{
}

/// The equalities of `constraints` solved as far as they can be: the bindings, and the constraints
/// that are left.
pub open spec fn equalities_solved(constraints: Seq<PredicateV>, solved: SubstitutionV) -> (
    SubstitutionV,
    Seq<PredicateV>,
)
    decreases constraints.len(),
    via equalities_solved_decreases
{
    match first_solution(constraints, solved, 0) {
        None => (solved, constraints),
        Some((index, None)) => equalities_solved(constraints.remove(index), solved),
        Some((index, Some((variable, value)))) => {
            let binding = seq![(variable, value)];
            equalities_solved(
                predicates_substituted(constraints.remove(index), binding),
                composed(binding, solved),
            )
        },
    }
}

#[via_fn]
proof fn equalities_solved_decreases(constraints: Seq<PredicateV>, solved: SubstitutionV) {
    lemma_first_solution(constraints, solved, 0);
    match first_solution(constraints, solved, 0) {
        Some((index, Some((variable, value)))) => {
            lemma_substituted_len(constraints.remove(index), seq![(variable, value)]);
        },
        _ => {},
    }
}

/// The bindings from `from` on of the given variables, behind `found`.
pub open spec fn bindings_of(
    bindings: SubstitutionV,
    variables: Seq<VariableV>,
    found: SubstitutionV,
    from: int,
) -> SubstitutionV
    decreases bindings.len() - from,
{
    if from >= bindings.len() {
        found
    } else {
        let next = if variables.contains(bindings[from].0) {
            found.push(bindings[from])
        } else {
            found
        };
        bindings_of(bindings, variables, next, from + 1)
    }
}

/// The condition of a match with its equalities solved; only the given variables stay bound.
pub open spec fn condition_normalized(
    output: SubstitutionV,
    constraints: Seq<PredicateV>,
    variables: Seq<VariableV>,
) -> (SubstitutionV, Seq<PredicateV>) {
    let (solved, left) = equalities_solved(constraints, Seq::empty());
    (
        bindings_of(composed(solved, output), variables, Seq::empty(), 0),
        predicates_substituted(left, solved),
    )
}

fn solve_equality(predicate: &Predicate, solved: &Substitution) -> (result: Option<
    Option<(Variable, Term)>,
>)
    ensures
        result.deep_view() == equality_solution(predicate@, solved@),
{
    proof {
        lemma_predicate_view(*predicate);
    }
    match predicate {
        Predicate::Equals(left, right) => {
            let left = substitute(left, solved);
            let right = substitute(right, solved);
            proof {
                lemma_term_view(left);
                lemma_term_view(right);
            }
            if left.equals(&right) {
                return Some(None);
            }
            if let Term::Variable(variable) = &left {
                if !occurs_in(variable, &right) {
                    return Some(Some((variable.duplicate(), right)));
                }
            }
            if let Term::Variable(variable) = &right {
                if !occurs_in(variable, &left) {
                    return Some(Some((variable.duplicate(), left)));
                }
            }
            None
        },
        _ => None,
    }
}

fn find_solution(constraints: &Vec<Predicate>, solved: &Substitution) -> (result: Option<
    (usize, Option<(Variable, Term)>),
>)
    ensures
        match result {
            Some((index, solution)) => index < constraints.len() && first_solution(
                deep(constraints@),
                solved@,
                0,
            ) == Some((index as int, solution.deep_view())),
            None => first_solution(deep(constraints@), solved@, 0) is None,
        },
{
    let mut i: usize = 0;
    while i < constraints.len()
        invariant
            i <= constraints.len(),
            first_solution(deep(constraints@), solved@, 0) == first_solution(
                deep(constraints@),
                solved@,
                i as int,
            ),
        decreases constraints.len() - i,
    {
        assert(deep(constraints@)[i as int] == constraints[i as int]@);
        if let Some(solution) = solve_equality(&constraints[i], solved) {
            return Some((i, solution));
        }
        i += 1;
    }
    None
}

fn solve_equalities(constraints: Vec<Predicate>) -> (result: (Substitution, Vec<Predicate>))
    ensures
        result.deep_view() == equalities_solved(deep(constraints@), Seq::empty()),
{
    let mut left = constraints;
    let mut solved = Substitution::new();
    loop
        invariant
            equalities_solved(deep(constraints@), Seq::empty()) == equalities_solved(
                deep(left@),
                solved@,
            ),
        decreases left.len(),
    {
        match find_solution(&left, &solved) {
            None => {
                return (solved, left);
            },
            Some((index, solution)) => {
                let ghost before = deep(left@);
                left.remove(index);
                assert(deep(left@) =~= before.remove(index as int));
                if let Some((variable, value)) = solution {
                    let binding = Substitution::singleton(variable, value);
                    solved = compose(&binding, &solved);
                    let next = substitute_predicates(&left, &binding);
                    proof {
                        lemma_substituted_len(deep(left@), binding@);
                    }
                    left = next;
                }
            },
        }
    }
}

fn keep_bindings(substitution: &Substitution, variables: &Vec<Variable>) -> (result: Substitution)
    ensures
        result@ == bindings_of(substitution@, deep(variables@), Seq::empty(), 0),
{
    let mut bindings: Vec<(Variable, Term)> = Vec::new();
    let mut i: usize = 0;
    while i < substitution.bindings.len()
        invariant
            i <= substitution.bindings.len(),
            bindings_of(substitution@, deep(variables@), Seq::empty(), 0) == bindings_of(
                substitution@,
                deep(variables@),
                deep(bindings@),
                i as int,
            ),
        decreases substitution.bindings.len() - i,
    {
        assert(deep(substitution.bindings@)[i as int]
            == substitution.bindings[i as int].deep_view());
        if contains(variables, &substitution.bindings[i].0) {
            bindings.push(substitution.bindings[i].duplicate());
        }
        i += 1;
    }
    Substitution { bindings }
}

/// Solve the equalities among the constraints, and keep what the output binds of `variables`.
pub fn normalize_match_condition(
    output: &Substitution,
    constraints: Vec<Predicate>,
    variables: &Vec<Variable>,
) -> (result: (Substitution, Vec<Predicate>))
    ensures
        result.deep_view() == condition_normalized(output@, deep(constraints@), deep(variables@)),
{
    let (solved, left) = solve_equalities(constraints);
    let all = compose(&solved, output);
    (keep_bindings(&all, variables), substitute_predicates(&left, &solved))
}

// ---------------------------------------------------------------------------------------------
// Matching a pattern
// ---------------------------------------------------------------------------------------------
/// Whether the constraints of a match can hold. Where that is open, either the match is kept or the
/// solver is asked.
pub open spec fn condition_holds<S: SmtSolver>(
    solver: &S,
    substitution: SubstitutionV,
    constraints: Seq<PredicateV>,
    retain_unknown: bool,
) -> Result<bool, PatternMatchErrorV> {
    match conjunction_truth(constraints) {
        Truth::False => Ok(false),
        Truth::True => Ok(true),
        Truth::Unknown => if retain_unknown {
            Ok(true)
        } else {
            match solver.satisfiability(constraints, substitution) {
                Ok(SatisfiabilityV::Unsat) => Ok(false),
                Ok(SatisfiabilityV::Sat) => Ok(true),
                Ok(SatisfiabilityV::Unknown(reason)) => Err(
                    PatternMatchErrorV::Smt(SmtErrorV::Unknown(reason)),
                ),
                Err(error) => Err(PatternMatchErrorV::Smt(error)),
            }
        },
    }
}

/// The condition under which `subject` is an instance of `target`, over the variables of `target`.
pub open spec fn pattern_matched<K: Kernel, S: SmtSolver>(
    definition: &BackendDefinition<K>,
    solver: &S,
    target: PatternV,
    subject: PatternV,
    options: SimplificationOptions,
    retain_unknown: bool,
) -> Result<Option<PatternMatchV>, PatternMatchErrorV> {
    match terms_matched(
        definition_context(MatchMode::Implies, definition),
        target.term,
        subject.term,
    ) {
        MatchResultV::Failed(_) => Ok(None),
        MatchResultV::Indeterminate { substitution, remainder } => Err(
            PatternMatchErrorV::Indeterminate { substitution, remainder },
        ),
        MatchResultV::Success(substitution) => {
            let (output, constraints) = condition_normalized(
                substitution,
                subject.constraints + predicates_substituted(target.constraints, substitution),
                pattern_variables(target),
            );
            match conjunction_simplified(definition, solver, constraints, Seq::empty(), options) {
                Err(error) => Err(PatternMatchErrorV::Simplification(error)),
                Ok(constraints) => match condition_holds(
                    solver,
                    output,
                    constraints,
                    retain_unknown,
                ) {
                    Err(error) => Err(error),
                    Ok(false) => Ok(None),
                    Ok(true) => Ok(Some(PatternMatchV { substitution: output, constraints })),
                },
            }
        },
    }
}

fn decide_condition<S: SmtSolver>(
    solver: &S,
    substitution: &Substitution,
    constraints: &Vec<Predicate>,
    retain_unknown: bool,
) -> (result: Result<bool, PatternMatchError>)
    ensures
        result_view(result) == condition_holds(
            solver,
            substitution@,
            deep(constraints@),
            retain_unknown,
        ),
{
    match predicates_truth(constraints) {
        Truth::False => Ok(false),
        Truth::True => Ok(true),
        Truth::Unknown => {
            if retain_unknown {
                return Ok(true);
            }
            match solver.is_sat(constraints, substitution) {
                Ok(Satisfiability::Unsat) => Ok(false),
                Ok(Satisfiability::Sat) => Ok(true),
                Ok(Satisfiability::Unknown(reason)) => Err(
                    PatternMatchError::Smt(SmtError::Unknown(reason)),
                ),
                Err(error) => Err(PatternMatchError::Smt(error)),
            }
        },
    }
}

#[verifier::spinoff_prover]
fn match_pattern_with_variables<K: Kernel, S: SmtSolver>(
    definition: &BackendDefinition<K>,
    target: &Pattern,
    subject: &Pattern,
    variables: &Vec<Variable>,
    options: SimplificationOptions,
    solver: &S,
    retain_unknown: bool,
) -> (result: Result<Option<PatternMatch>, PatternMatchError>)
    requires
        deep(variables@) == pattern_variables(target@),
    ensures
        result_view(result) == pattern_matched(
            definition,
            solver,
            target@,
            subject@,
            options,
            retain_unknown,
        ),
{
    let substitution = match match_terms_in_definition(
        MatchMode::Implies,
        definition,
        &target.term,
        &subject.term,
    ) {
        MatchResult::Success(substitution) => substitution,
        MatchResult::Failed(_) => {
            return Ok(None);
        },
        MatchResult::Indeterminate { substitution, remainder } => {
            return Err(PatternMatchError::Indeterminate { substitution, remainder });
        },
    };
    let mut constraints = subject.constraints.duplicate();
    let mut more = substitute_predicates(&target.constraints, &substitution);
    constraints.append(&mut more);
    let (output, constraints) = normalize_match_condition(&substitution, constraints, variables);
    let none: Vec<Predicate> = Vec::new();
    let constraints = match simplify_predicates_with_solver(
        definition,
        &constraints,
        &none,
        options,
        solver,
    ) {
        Ok(constraints) => constraints,
        Err(error) => {
            return Err(PatternMatchError::Simplification(error));
        },
    };
    match decide_condition(solver, &output, &constraints, retain_unknown) {
        Err(error) => Err(error),
        Ok(false) => Ok(None),
        Ok(true) => Ok(Some(PatternMatch { substitution: output, constraints })),
    }
}

/// The conditions for the subjects from `from` on, behind `found`, each once.
pub open spec fn disjunction_matched<K: Kernel, S: SmtSolver>(
    definition: &BackendDefinition<K>,
    solver: &S,
    target: PatternV,
    subjects: Seq<PatternV>,
    options: SimplificationOptions,
    retain_unknown: bool,
    found: Seq<PatternMatchV>,
    from: int,
) -> Result<Seq<PatternMatchV>, PatternMatchErrorV>
    decreases subjects.len() - from,
{
    if from >= subjects.len() {
        Ok(found)
    } else {
        match pattern_matched(
            definition,
            solver,
            target,
            subjects[from],
            options,
            retain_unknown,
        ) {
            Err(error) => Err(error),
            Ok(matched) => disjunction_matched(
                definition,
                solver,
                target,
                subjects,
                options,
                retain_unknown,
                match matched {
                    Some(matched) => if found.contains(matched) {
                        found
                    } else {
                        found.push(matched)
                    },
                    None => found,
                },
                from + 1,
            ),
        }
    }
}

#[verifier::spinoff_prover]
fn match_disjunction_using<K: Kernel, S: SmtSolver>(
    definition: &BackendDefinition<K>,
    target: &Pattern,
    subjects: &Vec<Pattern>,
    options: SimplificationOptions,
    solver: &S,
    retain_unknown: bool,
) -> (result: Result<Vec<PatternMatch>, PatternMatchError>)
    ensures
        result_view(result) == disjunction_matched(
            definition,
            solver,
            target@,
            deep(subjects@),
            options,
            retain_unknown,
            Seq::empty(),
            0,
        ),
{
    let variables = pattern_free_variables(target);
    let mut matches: Vec<PatternMatch> = Vec::new();
    let mut i: usize = 0;
    while i < subjects.len()
        invariant
            i <= subjects.len(),
            deep(variables@) == pattern_variables(target@),
            disjunction_matched(
                definition,
                solver,
                target@,
                deep(subjects@),
                options,
                retain_unknown,
                Seq::empty(),
                0,
            ) == disjunction_matched(
                definition,
                solver,
                target@,
                deep(subjects@),
                options,
                retain_unknown,
                deep(matches@),
                i as int,
            ),
        decreases subjects.len() - i,
    {
        assert(deep(subjects@)[i as int] == subjects[i as int]@);
        match match_pattern_with_variables(
            definition,
            target,
            &subjects[i],
            &variables,
            options,
            solver,
            retain_unknown,
        ) {
            Err(error) => {
                return Err(error);
            },
            Ok(Some(matched)) => {
                if !contains(&matches, &matched) {
                    matches.push(matched);
                }
            },
            Ok(None) => {},
        }
        i += 1;
    }
    Ok(matches)
}

/// Match a pattern with each alternative of a disjunction, without a solver. A match whose
/// conditions are open is kept.
pub fn match_disjunction<K: Kernel>(
    definition: &BackendDefinition<K>,
    target: &Pattern,
    subjects: &Vec<Pattern>,
) -> (result: Result<Vec<PatternMatch>, PatternMatchError>)
    ensures
        result_view(result) == disjunction_matched(
            definition,
            &NoSolver,
            target@,
            deep(subjects@),
            default_options(),
            true,
            Seq::empty(),
            0,
        ),
{
    match_disjunction_using(
        definition,
        target,
        subjects,
        SimplificationOptions::default(),
        &NoSolver,
        true,
    )
}

/// Match a pattern with each alternative of a disjunction. The solver decides conditions that are
/// open.
pub fn match_disjunction_with_solver<K: Kernel, S: SmtSolver>(
    definition: &BackendDefinition<K>,
    target: &Pattern,
    subjects: &Vec<Pattern>,
    options: SimplificationOptions,
    solver: &S,
) -> (result: Result<Vec<PatternMatch>, PatternMatchError>)
    ensures
        result_view(result) == disjunction_matched(
            definition,
            solver,
            target@,
            deep(subjects@),
            options,
            false,
            Seq::empty(),
            0,
        ),
{
    match_disjunction_using(definition, target, subjects, options, solver, false)
}

// ---------------------------------------------------------------------------------------------
// Search
// ---------------------------------------------------------------------------------------------
/// Whether one of the first `count` matches has the condition.
pub open spec fn has_condition(
    matches: Seq<SearchMatchV>,
    condition: PatternMatchV,
    count: int,
) -> bool
    decreases count,
{
    count > 0 && ((matches[count - 1].substitution == condition.substitution
        && matches[count - 1].constraints == condition.constraints) || has_condition(
        matches,
        condition,
        count - 1,
    ))
}

/// The matches with one more, unless one has its condition.
pub open spec fn with_match(
    matches: Seq<SearchMatchV>,
    condition: PatternMatchV,
    state: SearchStateV,
) -> Seq<SearchMatchV> {
    if has_condition(matches, condition, matches.len() as int) {
        matches
    } else {
        matches.push(
            SearchMatchV {
                substitution: condition.substitution,
                constraints: condition.constraints,
                state,
            },
        )
    }
}

/// That it is not known whether a state is an instance.
pub open spec fn match_incomplete_of(
    state: SearchStateV,
    error: PatternMatchErrorV,
) -> IncompleteSearchV {
    match error {
        PatternMatchErrorV::Indeterminate { substitution, remainder } => IncompleteSearchV::Match {
            state,
            substitution,
            remainder,
        },
        PatternMatchErrorV::Simplification(error) => simplification_incomplete_of(state, error),
        PatternMatchErrorV::Smt(error) => IncompleteSearchV::Smt { state, error },
    }
}

/// What the states from `from` on give: the matches and what the search may miss, behind those
/// found.
pub open spec fn states_matched<'a, K: Kernel, S: SmtSolver>(
    config: SearchConfig<'a, K, S>,
    target: PatternV,
    states: Seq<SearchStateV>,
    matches: Seq<SearchMatchV>,
    incomplete: Seq<IncompleteSearchV>,
    from: int,
) -> (Seq<SearchMatchV>, Seq<IncompleteSearchV>)
    decreases states.len() - from,
{
    if from >= states.len() {
        (matches, incomplete)
    } else {
        match pattern_matched(
            config.definition,
            config.solver,
            target,
            states[from].pattern,
            simplification_of(config.options),
            false,
        ) {
            Ok(None) => states_matched(config, target, states, matches, incomplete, from + 1),
            Err(error) => states_matched(
                config,
                target,
                states,
                matches,
                incomplete.push(match_incomplete_of(states[from], error)),
                from + 1,
            ),
            Ok(Some(condition)) => {
                let next = with_match(matches, condition, states[from]);
                if config.options.max_results is Some && next.len()
                    >= config.options.max_results->0 {
                    (
                        next,
                        if from + 1 < states.len() {
                            incomplete.push(IncompleteSearchV::ResultBound)
                        } else {
                            incomplete
                        },
                    )
                } else {
                    states_matched(config, target, states, next, incomplete, from + 1)
                }
            },
        }
    }
}

/// The instances of `target` among the configurations that were found.
pub open spec fn found_matched<'a, K: Kernel, S: SmtSolver>(
    config: SearchConfig<'a, K, S>,
    target: PatternV,
    found: SearchResultV,
) -> PatternSearchResultV {
    let (matches, incomplete) = states_matched(
        config,
        target,
        found.states,
        Seq::empty(),
        found.incomplete,
        0,
    );
    PatternSearchResultV { matches, effects: found.effects, incomplete }
}

/// What a search for instances of `target` finds.
pub open spec fn pattern_searched<'a, K: Kernel, S: SmtSolver>(
    config: SearchConfig<'a, K, S>,
    initial: PatternV,
    target: PatternV,
) -> PatternSearchResultV {
    if config.options.max_results == Some(0usize) {
        PatternSearchResultV {
            matches: Seq::empty(),
            effects: Seq::empty(),
            incomplete: seq![IncompleteSearchV::ResultBound],
        }
    } else {
        let graph = searched(
            SearchConfig {
                options: SearchOptions { max_results: None, ..config.options },
                ..config
            },
            initial,
        );
        found_matched(config, target, graph)
    }
}

fn match_incomplete(state: SearchState, error: PatternMatchError) -> (result: IncompleteSearch)
    ensures
        result@ == match_incomplete_of(state@, error@),
{
    match error {
        PatternMatchError::Indeterminate { substitution, remainder } => IncompleteSearch::Match {
            state,
            substitution,
            remainder,
        },
        PatternMatchError::Simplification(error) => simplification_incomplete(state, error),
        PatternMatchError::Smt(error) => IncompleteSearch::Smt { state, error },
    }
}

fn add_match(matches: &mut Vec<SearchMatch>, condition: PatternMatch, state: &SearchState)
    ensures
        deep(final(matches)@) == with_match(deep(old(matches)@), condition@, state@),
{
    let mut known = false;
    let mut i: usize = 0;
    while i < matches.len()
        invariant
            i <= matches.len(),
            matches@ == old(matches)@,
            known == has_condition(deep(matches@), condition@, i as int),
        decreases matches.len() - i,
    {
        assert(deep(matches@)[i as int] == matches[i as int]@);
        known = (matches[i].substitution.equals(&condition.substitution)
            && matches[i].constraints.equals(&condition.constraints)) || known;
        i += 1;
    }
    if !known {
        matches.push(
            SearchMatch {
                substitution: condition.substitution,
                constraints: condition.constraints,
                state: state.duplicate(),
            },
        );
    }
}

#[verifier::spinoff_prover]
fn match_states<'a, K: Kernel, S: SmtSolver>(
    config: &SearchConfig<'a, K, S>,
    target: &Pattern,
    states: &Vec<SearchState>,
    incomplete: Vec<IncompleteSearch>,
) -> (result: (Vec<SearchMatch>, Vec<IncompleteSearch>))
    ensures
        result.deep_view() == states_matched(
            *config,
            target@,
            deep(states@),
            Seq::empty(),
            deep(incomplete@),
            0,
        ),
{
    let variables = pattern_free_variables(target);
    let mut matches: Vec<SearchMatch> = Vec::new();
    let mut missed = incomplete;
    let mut i: usize = 0;
    while i < states.len()
        invariant
            i <= states.len(),
            deep(variables@) == pattern_variables(target@),
            states_matched(
                *config,
                target@,
                deep(states@),
                Seq::empty(),
                deep(incomplete@),
                0,
            ) == states_matched(
                *config,
                target@,
                deep(states@),
                deep(matches@),
                deep(missed@),
                i as int,
            ),
        decreases states.len() - i,
    {
        assert(deep(states@)[i as int] == states[i as int]@);
        match match_pattern_with_variables(
            config.definition,
            target,
            &states[i].pattern,
            &variables,
            simplification_options(config.options),
            config.solver,
            false,
        ) {
            Ok(None) => {},
            Err(error) => {
                missed.push(match_incomplete(states[i].duplicate(), error));
            },
            Ok(Some(condition)) => {
                add_match(&mut matches, condition, &states[i]);
                if let Some(bound) = config.options.max_results {
                    if matches.len() >= bound {
                        if i + 1 < states.len() {
                            missed.push(IncompleteSearch::ResultBound);
                        }
                        return (matches, missed);
                    }
                }
            },
        }
        i += 1;
    }
    (matches, missed)
}

/// The instances of `target` among the configurations that a search without a bound on its results
/// found.
pub fn match_found<'a, K: Kernel, S: SmtSolver>(
    config: &SearchConfig<'a, K, S>,
    target: &Pattern,
    found: SearchResult,
) -> (result: PatternSearchResult)
    ensures
        result@ == found_matched(*config, target@, found@),
{
    let (matches, incomplete) = match_states(config, target, &found.states, found.incomplete);
    PatternSearchResult { matches, effects: found.effects, incomplete }
}

/// Search the configurations for instances of `target`, without a solver.
pub fn search_pattern<K: Kernel>(
    definition: &BackendDefinition<K>,
    initial: Pattern,
    target: &Pattern,
    options: SearchOptions,
) -> (result: PatternSearchResult)
    ensures
        result@ == pattern_searched(
            SearchConfig { definition, solver: &NoSolver, options },
            initial@,
            target@,
        ),
{
    search_pattern_with_solver(definition, initial, target, options, &NoSolver)
}

/// Search the configurations for instances of `target`. The bound on the results is one on the
/// matches; what was not looked at when it is reached is reported as missed.
pub fn search_pattern_with_solver<K: Kernel, S: SmtSolver>(
    definition: &BackendDefinition<K>,
    initial: Pattern,
    target: &Pattern,
    options: SearchOptions,
    solver: &S,
) -> (result: PatternSearchResult)
    ensures
        result@ == pattern_searched(
            SearchConfig { definition, solver, options },
            initial@,
            target@,
        ),
{
    let config = SearchConfig { definition, solver, options };
    if let Some(0) = options.max_results {
        let mut incomplete: Vec<IncompleteSearch> = Vec::new();
        incomplete.push(IncompleteSearch::ResultBound);
        assert(deep(incomplete@) =~= seq![IncompleteSearchV::ResultBound]);
        return PatternSearchResult { matches: Vec::new(), effects: Vec::new(), incomplete };
    }
    let graph = search_graph_with_solver(
        definition,
        initial,
        SearchOptions {
            search_type: options.search_type,
            max_depth: options.max_depth,
            max_breadth: options.max_breadth,
            max_results: None,
            max_simplification_iterations: options.max_simplification_iterations,
        },
        solver,
    );
    match_found(&config, target, graph)
}

} // verus!
