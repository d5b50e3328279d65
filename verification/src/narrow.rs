//! Narrowing: matches that bind variables of the subject, or hold under equalities.

use vstd::prelude::*;
use crate::collections::{CollectionSolution, CollectionSolutionV, Narrowing, NarrowingV};
use crate::definition::BackendDefinition;
use crate::domain::{contains_function_pattern, functional, holds_function, is_functional_pattern};
use crate::construct::{occurs, occurs_in};
use crate::freshen::{collect_value_names, freshen_unbound_rule_variables, freshened, value_names};
use crate::index::{extend_unique, unique_extension};
use crate::kernel::{Kernel, UnificationResult, UnificationResultV};
use crate::matcher::{definition_context, match_terms_in_definition, terms_matched};
use crate::matching::{MatchMode, MatchResult, MatchResultV};
use crate::model::{contains, deep, group_deep, Value};
use crate::names::{
    decimal, decimal_text, fresh_counter_for, fresh_from, fresh_variable, next_counter,
};
use crate::ops::sort_of;
use crate::pattern::{pattern_names, pattern_variable_names, Pattern, PatternV};
use crate::predicate::{lemma_predicate_view, Predicate, PredicateV};
use crate::predicates::{predicates_substituted, substitute_predicates};
use crate::rule::{RewriteRule, RewriteRuleV};
use crate::solve::{
    collections_solved, is_collection_term, is_collection_view,
    solve_collection_pairs_in_definition,
};
use crate::sorts::{is_subsort, overloaded_by};
use crate::substitution::{compose, composed, substitute, substituted, Substitution, SubstitutionV};
use crate::term::{
    lemma_term_view, Sort, SortV, Symbol, SymbolType, SymbolV, Term, TermV, Variable, VariableKind,
    VariableV,
};

verus! {

broadcast use group_deep;

/// A substitution and the conditions under which it makes a match.
pub type Narrowed = (SubstitutionV, Seq<PredicateV>);

/// What unification makes of the pairs that a match leaves open.
#[derive(Debug, PartialEq, Eq)]
pub enum GeneralUnificationRecovery {
    Unified(Vec<(Substitution, Vec<Predicate>)>),
    Bottom,
    Unsupported,
}

/// The view of [`GeneralUnificationRecovery`].
pub enum GeneralUnificationRecoveryV {
    Unified(Seq<(SubstitutionV, Seq<PredicateV>)>),
    Bottom,
    Unsupported,
}

impl View for GeneralUnificationRecovery {
    type V = GeneralUnificationRecoveryV;

    open spec fn view(&self) -> GeneralUnificationRecoveryV {
        match self {
            GeneralUnificationRecovery::Unified(first) => GeneralUnificationRecoveryV::Unified(
                deep(first@),
            ),
            GeneralUnificationRecovery::Bottom => GeneralUnificationRecoveryV::Bottom,
            GeneralUnificationRecovery::Unsupported => GeneralUnificationRecoveryV::Unsupported,
        }
    }
}

impl DeepView for GeneralUnificationRecovery {
    type V = GeneralUnificationRecoveryV;

    open spec fn deep_view(&self) -> GeneralUnificationRecoveryV {
        self@
    }
}

impl Value for GeneralUnificationRecovery {
    fn duplicate(&self) -> (copy: Self) {
        match self {
            GeneralUnificationRecovery::Unified(first) => GeneralUnificationRecovery::Unified(
                first.duplicate(),
            ),
            GeneralUnificationRecovery::Bottom => GeneralUnificationRecovery::Bottom,
            GeneralUnificationRecovery::Unsupported => GeneralUnificationRecovery::Unsupported,
        }
    }

    fn equals(&self, other: &Self) -> (same: bool) {
        match (self, other) {
            (
                GeneralUnificationRecovery::Unified(first),
                GeneralUnificationRecovery::Unified(other_first),
            ) => first.equals(other_first),
            (GeneralUnificationRecovery::Bottom, GeneralUnificationRecovery::Bottom) => true,
            (
                GeneralUnificationRecovery::Unsupported,
                GeneralUnificationRecovery::Unsupported,
            ) => true,
            _ => false,
        }
    }
}

// ---------------------------------------------------------------------------------------------
// Collections
// ---------------------------------------------------------------------------------------------
/// The counter behind `narrowing`, or `counter` where there is none.
pub open spec fn narrowing_counter(narrowing: Option<NarrowingV>, counter: u64) -> u64 {
    match narrowing {
        Some(narrowing) => narrowing.counter,
        None => counter,
    }
}

/// The solutions of open pairs of collections; variables of the pattern may be bound, and fresh
/// ones stand for what is left of a collection.
pub open spec fn remainders_narrowed<K: Kernel>(
    definition: &BackendDefinition<K>,
    pattern: PatternV,
    substitution: SubstitutionV,
    remainder: Seq<(TermV, TermV)>,
    counter: u64,
) -> (Option<Seq<CollectionSolutionV>>, u64) {
    let (solutions, narrowing) = collections_solved(
        MatchMode::Rewrite,
        definition,
        substitution,
        remainder,
        Some(NarrowingV { avoided: pattern_names(pattern), counter }),
    );
    (solutions, narrowing_counter(narrowing, counter))
}

/// Solve open pairs of collections by narrowing.
pub(crate) fn solve_collection_remainders_with_narrowing<K: Kernel>(
    definition: &BackendDefinition<K>,
    pattern: &Pattern,
    substitution: Substitution,
    remainder: &Vec<(Term, Term)>,
    counter: &mut u64,
) -> (result: Option<Vec<CollectionSolution>>)
    ensures
        (result.deep_view(), *final(counter)) == remainders_narrowed(
            definition,
            pattern@,
            substitution@,
            deep(remainder@),
            *old(counter),
        ),
{
    let mut narrowing = Some(
        Narrowing { avoided: pattern_variable_names(pattern), counter: *counter },
    );
    let result = solve_collection_pairs_in_definition(
        MatchMode::Rewrite,
        definition,
        substitution,
        remainder,
        &mut narrowing,
    );
    if let Some(narrowing) = narrowing {
        *counter = narrowing.counter;
    }
    result
}

// ---------------------------------------------------------------------------------------------
// Unification
// ---------------------------------------------------------------------------------------------
/// `found` with the conditions under which both sides of the pairs from `from` on are defined.
pub open spec fn pairs_defined<K: Kernel>(
    definition: &BackendDefinition<K>,
    pairs: Seq<(TermV, TermV)>,
    substitution: SubstitutionV,
    found: Seq<PredicateV>,
    from: int,
) -> Seq<PredicateV>
    decreases pairs.len() - from,
{
    if from >= pairs.len() {
        found
    } else {
        pairs_defined(
            definition,
            pairs,
            substitution,
            unique_extension(
                unique_extension(
                    found,
                    definition.kernel.ceil(substituted(pairs[from].0, substitution)),
                ),
                definition.kernel.ceil(substituted(pairs[from].1, substitution)),
            ),
            from + 1,
        )
    }
}

/// The conditions under which both sides of the pairs are defined.
pub(crate) fn collection_unification_definedness<K: Kernel>(
    definition: &BackendDefinition<K>,
    pairs: &Vec<(Term, Term)>,
    substitution: &Substitution,
) -> (result: Vec<Predicate>)
    ensures
        deep(result@) == pairs_defined(definition, deep(pairs@), substitution@, Seq::empty(), 0),
{
    let mut conditions: Vec<Predicate> = Vec::new();
    let mut i: usize = 0;
    while i < pairs.len()
        invariant
            i <= pairs.len(),
            pairs_defined(definition, deep(pairs@), substitution@, Seq::empty(), 0)
                == pairs_defined(
                definition,
                deep(pairs@),
                substitution@,
                deep(conditions@),
                i as int,
            ),
        decreases pairs.len() - i,
    {
        assert(deep(pairs@)[i as int] == (pairs[i as int].0@, pairs[i as int].1@));
        extend_unique(
            &mut conditions,
            definition.kernel.ceil_term(&substitute(&pairs[i].0, substitution)),
        );
        extend_unique(
            &mut conditions,
            definition.kernel.ceil_term(&substitute(&pairs[i].1, substitution)),
        );
        i += 1;
    }
    conditions
}

/// A solution made a match: unbound variables of the rule are bound to fresh ones, and the sides of
/// `pairs` have to be defined.
pub open spec fn solution_finalized<K: Kernel>(
    definition: &BackendDefinition<K>,
    rule: RewriteRuleV,
    pattern: PatternV,
    solution: CollectionSolutionV,
    constraints: Seq<PredicateV>,
    pairs: Seq<(TermV, TermV)>,
    counter: u64,
) -> (Narrowed, u64) {
    let fresh = freshened(rule, pattern, solution.substitution, counter);
    let conditions = unique_extension(
        predicates_substituted(
            unique_extension(constraints, solution.constraints),
            fresh.substitution,
        ),
        pairs_defined(definition, pairs, fresh.substitution, Seq::empty(), 0),
    );
    ((fresh.substitution, conditions), fresh.counter)
}

/// The solutions from `from` on made matches, put behind `found`.
pub open spec fn solutions_finalized<K: Kernel>(
    definition: &BackendDefinition<K>,
    rule: RewriteRuleV,
    pattern: PatternV,
    solutions: Seq<CollectionSolutionV>,
    constraints: Seq<PredicateV>,
    pairs: Seq<(TermV, TermV)>,
    found: Seq<Narrowed>,
    counter: u64,
    from: int,
) -> (Seq<Narrowed>, u64)
    decreases solutions.len() - from,
{
    if from >= solutions.len() {
        (found, counter)
    } else {
        let (next, after) = solution_finalized(
            definition,
            rule,
            pattern,
            solutions[from],
            constraints,
            pairs,
            counter,
        );
        solutions_finalized(
            definition,
            rule,
            pattern,
            solutions,
            constraints,
            pairs,
            found.push(next),
            after,
            from + 1,
        )
    }
}

fn finalize_solution<K: Kernel>(
    definition: &BackendDefinition<K>,
    rule: &RewriteRule,
    pattern: &Pattern,
    solution: &CollectionSolution,
    constraints: &Vec<Predicate>,
    pairs: &Vec<(Term, Term)>,
    counter: &mut u64,
) -> (result: (Substitution, Vec<Predicate>))
    ensures
        (result.deep_view(), *final(counter)) == solution_finalized(
            definition,
            rule@,
            pattern@,
            solution@,
            deep(constraints@),
            deep(pairs@),
            *old(counter),
        ),
{
    let (substitution, _) = freshen_unbound_rule_variables(
        rule,
        pattern,
        solution.substitution.duplicate(),
        counter,
    );
    let mut all = constraints.duplicate();
    extend_unique(&mut all, solution.constraints.duplicate());
    let mut conditions = substitute_predicates(&all, &substitution);
    extend_unique(
        &mut conditions,
        collection_unification_definedness(definition, pairs, &substitution),
    );
    (substitution, conditions)
}

fn finalize_general_unification<K: Kernel>(
    definition: &BackendDefinition<K>,
    rule: &RewriteRule,
    pattern: &Pattern,
    solutions: &Vec<CollectionSolution>,
    constraints: &Vec<Predicate>,
    pairs: &Vec<(Term, Term)>,
    counter: &mut u64,
) -> (result: Vec<(Substitution, Vec<Predicate>)>)
    ensures
        (deep(result@), *final(counter)) == solutions_finalized(
            definition,
            rule@,
            pattern@,
            deep(solutions@),
            deep(constraints@),
            deep(pairs@),
            Seq::empty(),
            *old(counter),
            0,
        ),
{
    let mut result: Vec<(Substitution, Vec<Predicate>)> = Vec::new();
    let ghost goal = solutions_finalized(
        definition,
        rule@,
        pattern@,
        deep(solutions@),
        deep(constraints@),
        deep(pairs@),
        Seq::empty(),
        *counter,
        0,
    );
    let mut i: usize = 0;
    while i < solutions.len()
        invariant
            i <= solutions.len(),
            goal == solutions_finalized(
                definition,
                rule@,
                pattern@,
                deep(solutions@),
                deep(constraints@),
                deep(pairs@),
                deep(result@),
                *counter,
                i as int,
            ),
        decreases solutions.len() - i,
    {
        assert(deep(solutions@)[i as int] == solutions[i as int]@);
        let next = finalize_solution(
            definition,
            rule,
            pattern,
            &solutions[i],
            constraints,
            pairs,
            counter,
        );
        result.push(next);
        i += 1;
    }
    result
}

/// What unification makes of open pairs: where it leaves pairs of collections, these are solved by
/// narrowing.
pub open spec fn generally_unified<K: Kernel>(
    definition: &BackendDefinition<K>,
    rule: RewriteRuleV,
    pattern: PatternV,
    substitution: SubstitutionV,
    remainder: Seq<(TermV, TermV)>,
    counter: u64,
) -> (GeneralUnificationRecoveryV, u64) {
    match definition.kernel.unified(substitution, remainder) {
        UnificationResultV::Bottom(_) => (GeneralUnificationRecoveryV::Bottom, counter),
        UnificationResultV::Unsupported { substitution, constraints, remainder } => {
            match remainders_narrowed(definition, pattern, substitution, remainder, counter) {
                (None, after) => (GeneralUnificationRecoveryV::Unsupported, after),
                (Some(solutions), after) => if solutions.len() == 0 {
                    (GeneralUnificationRecoveryV::Bottom, after)
                } else {
                    let (found, last) = solutions_finalized(
                        definition,
                        rule,
                        pattern,
                        solutions,
                        constraints,
                        remainder,
                        Seq::empty(),
                        after,
                        0,
                    );
                    (GeneralUnificationRecoveryV::Unified(found), last)
                },
            }
        },
        UnificationResultV::Unified { substitution, constraints } => {
            let (found, last) = solutions_finalized(
                definition,
                rule,
                pattern,
                seq![
                    CollectionSolutionV {
                        substitution,
                        constraints: Seq::empty(),
                        fresh: Seq::empty(),
                    },
                ],
                constraints,
                Seq::empty(),
                Seq::empty(),
                counter,
                0,
            );
            (GeneralUnificationRecoveryV::Unified(found), last)
        },
    }
}

/// Unify the pairs that a match leaves open.
#[verifier::spinoff_prover]
pub(crate) fn recover_general_unification<K: Kernel>(
    definition: &BackendDefinition<K>,
    rule: &RewriteRule,
    pattern: &Pattern,
    substitution: Substitution,
    remainder: Vec<(Term, Term)>,
    counter: &mut u64,
) -> (result: GeneralUnificationRecovery)
    ensures
        (result@, *final(counter)) == generally_unified(
            definition,
            rule@,
            pattern@,
            substitution@,
            deep(remainder@),
            *old(counter),
        ),
{
    match definition.kernel.unify(substitution, remainder) {
        UnificationResult::Bottom(_) => GeneralUnificationRecovery::Bottom,
        UnificationResult::Unsupported { substitution: bound, constraints, remainder: open } => {
            let solutions = match solve_collection_remainders_with_narrowing(
                definition,
                pattern,
                bound,
                &open,
                counter,
            ) {
                Some(solutions) => solutions,
                None => {
                    return GeneralUnificationRecovery::Unsupported;
                },
            };
            if solutions.len() == 0 {
                return GeneralUnificationRecovery::Bottom;
            }
            GeneralUnificationRecovery::Unified(
                finalize_general_unification(
                    definition,
                    rule,
                    pattern,
                    &solutions,
                    &constraints,
                    &open,
                    counter,
                ),
            )
        },
        UnificationResult::Unified { substitution: bound, constraints } => {
            let mut solutions: Vec<CollectionSolution> = Vec::new();
            solutions.push(
                CollectionSolution {
                    substitution: bound,
                    constraints: Vec::new(),
                    fresh: Vec::new(),
                },
            );
            assert(deep(solutions@) =~= seq![
                CollectionSolutionV {
                    substitution: bound@,
                    constraints: Seq::empty(),
                    fresh: Seq::empty(),
                },
            ]);
            let pairs: Vec<(Term, Term)> = Vec::new();
            GeneralUnificationRecovery::Unified(
                finalize_general_unification(
                    definition,
                    rule,
                    pattern,
                    &solutions,
                    &constraints,
                    &pairs,
                    counter,
                ),
            )
        },
    }
}

// ---------------------------------------------------------------------------------------------
// Functional patterns against variables
// ---------------------------------------------------------------------------------------------
/// Whether each pair from `from` on is of a functional pattern and of a variable of a greater sort
/// that does not occur in it.
pub open spec fn against_variables<K: Kernel>(
    definition: &BackendDefinition<K>,
    remainder: Seq<(TermV, TermV)>,
    substitution: SubstitutionV,
    from: int,
) -> bool
    decreases remainder.len() - from,
{
    if from >= remainder.len() {
        true
    } else {
        let term = substituted(remainder[from].0, substitution);
        let subject = substituted(remainder[from].1, substitution);
        subject is Variable && functional(term) && !occurs(subject->Variable_0, term)
            && is_subsort(
            definition.sort_graph@,
            sort_of(term),
            subject->Variable_0.sort,
        ) && against_variables(definition, remainder, substitution, from + 1)
    }
}

/// Whether a predicate says that one of `fresh` is defined, which it is.
pub open spec fn about_fresh(predicate: PredicateV, fresh: Seq<VariableV>) -> bool {
    match predicate {
        PredicateV::Ceil(TermV::Variable(variable)) => fresh.contains(variable),
        _ => false,
    }
}

/// `found` with the conditions from `from` on that are new and not about fresh variables.
pub open spec fn definedness_added(
    found: Seq<PredicateV>,
    added: Seq<PredicateV>,
    fresh: Seq<VariableV>,
    from: int,
) -> Seq<PredicateV>
    decreases added.len() - from,
{
    if from >= added.len() {
        found
    } else {
        let next = if about_fresh(added[from], fresh) || found.contains(added[from]) {
            found
        } else {
            found.push(added[from])
        };
        definedness_added(next, added, fresh, from + 1)
    }
}

/// `found` with the equalities of the pairs from `from` on, each followed by what makes its pattern
/// defined, unless a subject is no variable.
pub open spec fn equalities_with_definedness<K: Kernel>(
    definition: &BackendDefinition<K>,
    remainder: Seq<(TermV, TermV)>,
    substitution: SubstitutionV,
    fresh: Seq<VariableV>,
    found: Seq<PredicateV>,
    from: int,
) -> Option<Seq<PredicateV>>
    decreases remainder.len() - from,
{
    if from >= remainder.len() {
        Some(found)
    } else {
        let term = substituted(remainder[from].0, substitution);
        let subject = substituted(remainder[from].1, substitution);
        if term == subject {
            equalities_with_definedness(
                definition,
                remainder,
                substitution,
                fresh,
                found,
                from + 1,
            )
        } else if !(subject is Variable) {
            None
        } else {
            equalities_with_definedness(
                definition,
                remainder,
                substitution,
                fresh,
                definedness_added(
                    found.push(PredicateV::Equals(subject, term)),
                    if holds_function(term) {
                        definition.kernel.ceil(term)
                    } else {
                        Seq::empty()
                    },
                    fresh,
                    0,
                ),
                from + 1,
            )
        }
    }
}

/// The match of functional patterns with variables of the configuration: unbound variables of the
/// rule become fresh variables of the successor, and the equalities are kept as conditions.
pub open spec fn functional_symbolic<K: Kernel>(
    definition: &BackendDefinition<K>,
    rule: RewriteRuleV,
    pattern: PatternV,
    substitution: SubstitutionV,
    remainder: Seq<(TermV, TermV)>,
    counter: u64,
) -> (Option<Narrowed>, u64) {
    if !against_variables(definition, remainder, substitution, 0) {
        (None, counter)
    } else {
        let fresh = freshened(rule, pattern, substitution, counter);
        match equalities_with_definedness(
            definition,
            remainder,
            fresh.substitution,
            fresh.fresh,
            Seq::empty(),
            0,
        ) {
            None => (None, fresh.counter),
            Some(conditions) => if conditions.len() == 0 {
                (None, fresh.counter)
            } else {
                (Some((fresh.substitution, conditions)), fresh.counter)
            },
        }
    }
}

fn are_against_variables<K: Kernel>(
    definition: &BackendDefinition<K>,
    remainder: &Vec<(Term, Term)>,
    substitution: &Substitution,
) -> (result: bool)
    ensures
        result == against_variables(definition, deep(remainder@), substitution@, 0),
{
    let mut i: usize = 0;
    while i < remainder.len()
        invariant
            i <= remainder.len(),
            against_variables(definition, deep(remainder@), substitution@, 0) == against_variables(
                definition,
                deep(remainder@),
                substitution@,
                i as int,
            ),
        decreases remainder.len() - i,
    {
        assert(deep(remainder@)[i as int] == (remainder[i as int].0@, remainder[i as int].1@));
        let term = substitute(&remainder[i].0, substitution);
        let subject = substitute(&remainder[i].1, substitution);
        proof {
            lemma_term_view(subject);
        }
        match &subject {
            Term::Variable(variable) => {
                if !is_functional_pattern(&term) || occurs_in(variable, &term)
                    || !definition.sort_graph.is_subsort(&term.sort(), &variable.sort) {
                    return false;
                }
            },
            _ => {
                return false;
            },
        }
        i += 1;
    }
    true
}

fn is_about_fresh(predicate: &Predicate, fresh: &Vec<Variable>) -> (result: bool)
    ensures
        result == about_fresh(predicate@, deep(fresh@)),
{
    proof {
        lemma_predicate_view(*predicate);
    }
    match predicate {
        Predicate::Ceil(term) => {
            proof {
                lemma_term_view(*term);
            }
            match term {
                Term::Variable(variable) => contains(fresh, variable),
                _ => false,
            }
        },
        _ => false,
    }
}

fn add_definedness(conditions: &mut Vec<Predicate>, added: &Vec<Predicate>, fresh: &Vec<Variable>)
    ensures
        deep(final(conditions)@) == definedness_added(
            deep(old(conditions)@),
            deep(added@),
            deep(fresh@),
            0,
        ),
{
    let ghost start = deep(conditions@);
    let mut i: usize = 0;
    while i < added.len()
        invariant
            i <= added.len(),
            definedness_added(start, deep(added@), deep(fresh@), 0) == definedness_added(
                deep(conditions@),
                deep(added@),
                deep(fresh@),
                i as int,
            ),
        decreases added.len() - i,
    {
        assert(deep(added@)[i as int] == added[i as int]@);
        if !is_about_fresh(&added[i], fresh) && !contains(conditions, &added[i]) {
            conditions.push(added[i].duplicate());
        }
        i += 1;
    }
}

fn collect_equalities_with_definedness<K: Kernel>(
    definition: &BackendDefinition<K>,
    remainder: &Vec<(Term, Term)>,
    substitution: &Substitution,
    fresh: &Vec<Variable>,
) -> (result: Option<Vec<Predicate>>)
    ensures
        result.deep_view() == equalities_with_definedness(
            definition,
            deep(remainder@),
            substitution@,
            deep(fresh@),
            Seq::empty(),
            0,
        ),
{
    let mut conditions: Vec<Predicate> = Vec::new();
    let mut i: usize = 0;
    while i < remainder.len()
        invariant
            i <= remainder.len(),
            equalities_with_definedness(
                definition,
                deep(remainder@),
                substitution@,
                deep(fresh@),
                Seq::empty(),
                0,
            ) == equalities_with_definedness(
                definition,
                deep(remainder@),
                substitution@,
                deep(fresh@),
                deep(conditions@),
                i as int,
            ),
        decreases remainder.len() - i,
    {
        assert(deep(remainder@)[i as int] == (remainder[i as int].0@, remainder[i as int].1@));
        let term = substitute(&remainder[i].0, substitution);
        let subject = substitute(&remainder[i].1, substitution);
        proof {
            lemma_term_view(subject);
        }
        if !term.equals(&subject) {
            if !matches!(&subject, Term::Variable(_)) {
                return None;
            }
            let definedness = if contains_function_pattern(&term) {
                definition.kernel.ceil_term(&term)
            } else {
                Vec::new()
            };
            conditions.push(Predicate::equality(subject, term));
            add_definedness(&mut conditions, &definedness, fresh);
        }
        i += 1;
    }
    Some(conditions)
}

/// Match functional patterns with variables of the configuration.
pub(crate) fn recover_functional_symbolic_match<K: Kernel>(
    definition: &BackendDefinition<K>,
    rule: &RewriteRule,
    pattern: &Pattern,
    substitution: &Substitution,
    remainder: &Vec<(Term, Term)>,
    counter: &mut u64,
) -> (result: Option<(Substitution, Vec<Predicate>)>)
    ensures
        (result.deep_view(), *final(counter)) == functional_symbolic(
            definition,
            rule@,
            pattern@,
            substitution@,
            deep(remainder@),
            *old(counter),
        ),
{
    if !are_against_variables(definition, remainder, substitution) {
        return None;
    }
    let (bound, fresh) = freshen_unbound_rule_variables(
        rule,
        pattern,
        substitution.duplicate(),
        counter,
    );
    match collect_equalities_with_definedness(definition, remainder, &bound, &fresh) {
        None => None,
        Some(conditions) => if conditions.len() == 0 {
            None
        } else {
            Some((bound, conditions))
        },
    }
}

// ---------------------------------------------------------------------------------------------
// Equalities of functions
// ---------------------------------------------------------------------------------------------
/// Whether a pair can be kept as an equality: the sorts agree, neither side is a collection and one
/// holds a function.
pub open spec fn keeps_as_equality(left: TermV, right: TermV) -> bool {
    sort_of(left) == sort_of(right) && !is_collection_view(left) && !is_collection_view(right) && (
    holds_function(left) || holds_function(right))
}

/// Whether all pairs from `from` on can be kept as equalities.
pub open spec fn all_keep_as_equality(remainder: Seq<(TermV, TermV)>, from: int) -> bool
    decreases remainder.len() - from,
{
    from >= remainder.len() || (keeps_as_equality(remainder[from].0, remainder[from].1)
        && all_keep_as_equality(remainder, from + 1))
}

/// `found` with the equalities of the pairs from `from` on whose sides differ.
pub open spec fn plain_equalities(
    remainder: Seq<(TermV, TermV)>,
    substitution: SubstitutionV,
    found: Seq<PredicateV>,
    from: int,
) -> Seq<PredicateV>
    decreases remainder.len() - from,
{
    if from >= remainder.len() {
        found
    } else {
        let left = substituted(remainder[from].0, substitution);
        let right = substituted(remainder[from].1, substitution);
        let next = if left == right {
            found
        } else {
            found.push(PredicateV::Equals(left, right))
        };
        plain_equalities(remainder, substitution, next, from + 1)
    }
}

/// The match with the open pairs kept as equalities.
pub open spec fn function_equality(
    rule: RewriteRuleV,
    pattern: PatternV,
    substitution: SubstitutionV,
    remainder: Seq<(TermV, TermV)>,
    counter: u64,
) -> (Option<Narrowed>, u64) {
    if remainder.len() == 0 || !all_keep_as_equality(remainder, 0) {
        (None, counter)
    } else {
        let fresh = freshened(rule, pattern, substitution, counter);
        let conditions = plain_equalities(remainder, fresh.substitution, Seq::empty(), 0);
        if conditions.len() == 0 {
            (None, fresh.counter)
        } else {
            (Some((fresh.substitution, conditions)), fresh.counter)
        }
    }
}

fn keep_as_equalities(remainder: &Vec<(Term, Term)>) -> (result: bool)
    ensures
        result == all_keep_as_equality(deep(remainder@), 0),
{
    let mut i: usize = 0;
    while i < remainder.len()
        invariant
            i <= remainder.len(),
            all_keep_as_equality(deep(remainder@), 0) == all_keep_as_equality(
                deep(remainder@),
                i as int,
            ),
        decreases remainder.len() - i,
    {
        assert(deep(remainder@)[i as int] == (remainder[i as int].0@, remainder[i as int].1@));
        let left = &remainder[i].0;
        let right = &remainder[i].1;
        if !left.sort().equals(&right.sort()) || is_collection_term(left) || is_collection_term(
            right,
        ) || (!contains_function_pattern(left) && !contains_function_pattern(right)) {
            return false;
        }
        i += 1;
    }
    true
}

fn collect_equalities(remainder: &Vec<(Term, Term)>, substitution: &Substitution) -> (result: Vec<
    Predicate,
>)
    ensures
        deep(result@) == plain_equalities(deep(remainder@), substitution@, Seq::empty(), 0),
{
    let mut conditions: Vec<Predicate> = Vec::new();
    let mut i: usize = 0;
    while i < remainder.len()
        invariant
            i <= remainder.len(),
            plain_equalities(deep(remainder@), substitution@, Seq::empty(), 0) == plain_equalities(
                deep(remainder@),
                substitution@,
                deep(conditions@),
                i as int,
            ),
        decreases remainder.len() - i,
    {
        assert(deep(remainder@)[i as int] == (remainder[i as int].0@, remainder[i as int].1@));
        let left = substitute(&remainder[i].0, substitution);
        let right = substitute(&remainder[i].1, substitution);
        if !left.equals(&right) {
            conditions.push(Predicate::equality(left, right));
        }
        i += 1;
    }
    conditions
}

/// Keep open pairs of functions as equalities. Collections are left out: they may match in more
/// than one way, which one equality does not say.
pub(crate) fn recover_function_equality_match(
    rule: &RewriteRule,
    pattern: &Pattern,
    substitution: &Substitution,
    remainder: &Vec<(Term, Term)>,
    counter: &mut u64,
) -> (result: Option<(Substitution, Vec<Predicate>)>)
    ensures
        (result.deep_view(), *final(counter)) == function_equality(
            rule@,
            pattern@,
            substitution@,
            deep(remainder@),
            *old(counter),
        ),
{
    if remainder.len() == 0 || !keep_as_equalities(remainder) {
        return None;
    }
    let (bound, _) = freshen_unbound_rule_variables(
        rule,
        pattern,
        substitution.duplicate(),
        counter,
    );
    let conditions = collect_equalities(remainder, &bound);
    if conditions.len() == 0 {
        None
    } else {
        Some((bound, conditions))
    }
}

// ---------------------------------------------------------------------------------------------
// Overloads
// ---------------------------------------------------------------------------------------------
/// The symbol of an application, which may stand in an injection.
pub open spec fn applied_symbol(term: TermV) -> Option<SymbolV> {
    match term {
        TermV::Application { symbol, .. } => Some(symbol),
        TermV::Injection { term, .. } => match *term {
            TermV::Application { symbol, .. } => Some(symbol),
            _ => None,
        },
        _ => None,
    }
}

/// Whether `symbol` can be the head of a value of sort `sort`; with `exact`, of no smaller sort.
pub open spec fn fits_sort<K: Kernel>(
    definition: &BackendDefinition<K>,
    symbol: SymbolV,
    sort: SortV,
) -> bool {
    symbol.sort_variables.len() == 0 && symbol.attributes.symbol_type is Constructor && is_subsort(
        definition.sort_graph@,
        symbol.result_sort,
        sort,
    )
}

/// The symbols of `names` from `from` on that fit, put behind `found`.
pub open spec fn fitting_symbols<K: Kernel>(
    definition: &BackendDefinition<K>,
    names: Seq<Seq<char>>,
    sort: SortV,
    found: Seq<SymbolV>,
    from: int,
) -> Seq<SymbolV>
    decreases names.len() - from,
{
    if from >= names.len() {
        found
    } else {
        let next = match definition.spec_symbol(names[from]) {
            Some(symbol) => if fits_sort(definition, symbol, sort) {
                found.push(symbol)
            } else {
                found
            },
            None => found,
        };
        fitting_symbols(definition, names, sort, next, from + 1)
    }
}

/// Those of the symbols from `from` on whose sort is `sort`, put behind `found`.
pub open spec fn exact_symbols(
    symbols: Seq<SymbolV>,
    sort: SortV,
    found: Seq<SymbolV>,
    from: int,
) -> Seq<SymbolV>
    decreases symbols.len() - from,
{
    if from >= symbols.len() {
        found
    } else {
        let next = if symbols[from].result_sort == sort {
            found.push(symbols[from])
        } else {
            found
        };
        exact_symbols(symbols, sort, next, from + 1)
    }
}

/// The symbols below `name` that fit `sort`: those of the sort itself, where there are any.
pub open spec fn overload_candidates<K: Kernel>(
    definition: &BackendDefinition<K>,
    name: Seq<char>,
    sort: SortV,
) -> Seq<SymbolV> {
    let fitting = fitting_symbols(
        definition,
        overloaded_by(definition.overloads@, name),
        sort,
        Seq::empty(),
        0,
    );
    let exact = exact_symbols(fitting, sort, Seq::empty(), 0);
    if exact.len() > 0 {
        exact
    } else {
        fitting
    }
}

/// The variable from which the argument at `index` of an overload is made.
pub open spec fn overload_seed(index: int, sort: SortV) -> VariableV {
    VariableV {
        name: "Ex#Overload"@ + decimal(index as nat),
        sort,
        kind: VariableKind::Element,
    }
}

/// `found` with a fresh variable for each sort from `from` on, and the counter behind them.
pub open spec fn fresh_arguments(
    sorts: Seq<SortV>,
    avoided: Seq<Seq<char>>,
    found: Seq<TermV>,
    counter: u64,
    from: int,
) -> (Seq<TermV>, u64)
    decreases sorts.len() - from,
{
    if from >= sorts.len() {
        (found, counter)
    } else {
        let seed = overload_seed(from, sorts[from]);
        let fresh = fresh_from(seed, avoided, counter);
        fresh_arguments(
            sorts,
            avoided.push(fresh.name),
            found.push(TermV::Variable(fresh)),
            next_counter(fresh_counter_for(seed.name, avoided, counter)),
            from + 1,
        )
    }
}

/// `term` of sort `from` as a term of sort `to`.
pub open spec fn lifted_to(term: TermV, from: SortV, to: SortV) -> TermV {
    if from == to {
        term
    } else {
        TermV::Injection { source: from, target: to, term: Box::new(term) }
    }
}

/// The match of an overloaded application with an injected variable, where only one symbol can be
/// the head of the variable's value.
pub open spec fn overload_symbolic<K: Kernel>(
    definition: &BackendDefinition<K>,
    pattern: PatternV,
    substitution: SubstitutionV,
    remainder: Seq<(TermV, TermV)>,
    counter: u64,
) -> (Option<Narrowed>, u64) {
    if remainder.len() != 1 {
        (None, counter)
    } else {
        let term = substituted(remainder[0].0, substitution);
        let subject = substituted(remainder[0].1, substitution);
        match (applied_symbol(term), subject) {
            (Some(symbol), TermV::Injection { target, term: inner, .. }) => match *inner {
                TermV::Variable(variable) => overload_narrowed(
                    definition,
                    pattern,
                    substitution,
                    term,
                    overload_candidates(definition, symbol.name, variable.sort),
                    variable,
                    target,
                    counter,
                ),
                _ => (None, counter),
            },
            _ => (None, counter),
        }
    }
}

/// The match of `term` with `variable` injected into `target`, where the only one of `candidates` is
/// the head of the variable's value.
pub open spec fn overload_narrowed<K: Kernel>(
    definition: &BackendDefinition<K>,
    pattern: PatternV,
    substitution: SubstitutionV,
    term: TermV,
    candidates: Seq<SymbolV>,
    variable: VariableV,
    target: SortV,
    counter: u64,
) -> (Option<Narrowed>, u64) {
    if candidates.len() != 1 {
        (None, counter)
    } else {
        let candidate = candidates[0];
        let (arguments, after) = fresh_arguments(
            candidate.argument_sorts,
            value_names(substitution, pattern_names(pattern), 0),
            Seq::empty(),
            counter,
            0,
        );
        let applied = TermV::Application {
            symbol: candidate,
            sort_arguments: Seq::empty(),
            arguments,
        };
        match terms_matched(
            definition_context(MatchMode::Rewrite, definition),
            term,
            lifted_to(applied, candidate.result_sort, target),
        ) {
            MatchResultV::Success(found) => (
                Some(
                    (
                        composed(found, substitution),
                        seq![
                            PredicateV::Equals(
                                TermV::Variable(variable),
                                lifted_to(applied, candidate.result_sort, variable.sort),
                            ),
                        ],
                    ),
                ),
                after,
            ),
            _ => (None, after),
        }
    }
}

fn find_applied_symbol(term: &Term) -> (result: Option<&Symbol>)
    ensures
        result.deep_view() == applied_symbol(term@),
{
    proof {
        lemma_term_view(*term);
    }
    match term {
        Term::Application { symbol, .. } => Some(symbol),
        Term::Injection { term: inner, .. } => {
            proof {
                lemma_term_view(**inner);
            }
            match &**inner {
                Term::Application { symbol, .. } => Some(symbol),
                _ => None,
            }
        },
        _ => None,
    }
}

fn find_fitting_symbols<K: Kernel>(
    definition: &BackendDefinition<K>,
    names: &Vec<String>,
    sort: &Sort,
) -> (result: Vec<Symbol>)
    ensures
        deep(result@) == fitting_symbols(definition, deep(names@), sort@, Seq::empty(), 0),
{
    let mut result: Vec<Symbol> = Vec::new();
    let mut i: usize = 0;
    while i < names.len()
        invariant
            i <= names.len(),
            fitting_symbols(definition, deep(names@), sort@, Seq::empty(), 0) == fitting_symbols(
                definition,
                deep(names@),
                sort@,
                deep(result@),
                i as int,
            ),
        decreases names.len() - i,
    {
        assert(deep(names@)[i as int] == names[i as int]@);
        if let Some(symbol) = definition.symbol(names[i].as_str()) {
            if symbol.sort_variables.len() == 0 && matches!(
                symbol.attributes.symbol_type,
                SymbolType::Constructor
            ) && definition.sort_graph.is_subsort(&symbol.result_sort, sort) {
                result.push(symbol.duplicate());
            }
        }
        i += 1;
    }
    result
}

fn find_exact_symbols(symbols: &Vec<Symbol>, sort: &Sort) -> (result: Vec<Symbol>)
    ensures
        deep(result@) == exact_symbols(deep(symbols@), sort@, Seq::empty(), 0),
{
    let mut result: Vec<Symbol> = Vec::new();
    let mut i: usize = 0;
    while i < symbols.len()
        invariant
            i <= symbols.len(),
            exact_symbols(deep(symbols@), sort@, Seq::empty(), 0) == exact_symbols(
                deep(symbols@),
                sort@,
                deep(result@),
                i as int,
            ),
        decreases symbols.len() - i,
    {
        assert(deep(symbols@)[i as int] == symbols[i as int]@);
        if symbols[i].result_sort.equals(sort) {
            result.push(symbols[i].duplicate());
        }
        i += 1;
    }
    result
}

fn find_overload_candidates<K: Kernel>(
    definition: &BackendDefinition<K>,
    name: &String,
    sort: &Sort,
) -> (result: Vec<Symbol>)
    ensures
        deep(result@) == overload_candidates(definition, name@, sort@),
{
    let names = definition.overloads.overloaded_by(name);
    let fitting = find_fitting_symbols(definition, &names, sort);
    let exact = find_exact_symbols(&fitting, sort);
    if exact.len() > 0 {
        exact
    } else {
        fitting
    }
}

fn make_fresh_arguments(sorts: &Vec<Sort>, avoided: Vec<String>, counter: &mut u64) -> (result: Vec<
    Term,
>)
    ensures
        (deep(result@), *final(counter)) == fresh_arguments(
            deep(sorts@),
            deep(avoided@),
            Seq::empty(),
            *old(counter),
            0,
        ),
{
    let ghost goal = fresh_arguments(deep(sorts@), deep(avoided@), Seq::empty(), *counter, 0);
    let mut result: Vec<Term> = Vec::new();
    let mut names = avoided;
    let mut i: usize = 0;
    while i < sorts.len()
        invariant
            i <= sorts.len(),
            goal == fresh_arguments(
                deep(sorts@),
                deep(names@),
                deep(result@),
                *counter,
                i as int,
            ),
        decreases sorts.len() - i,
    {
        assert(deep(sorts@)[i as int] == sorts[i as int]@);
        let mut name = "Ex#Overload".to_owned();
        name.append(decimal_text(i as u64).as_str());
        let seed = Variable::new(name.as_str(), sorts[i].duplicate());
        let fresh = fresh_variable(&seed, &mut names, counter);
        result.push(Term::variable(fresh));
        i += 1;
    }
    result
}

fn lift_to(term: Term, from: &Sort, to: &Sort) -> (result: Term)
    ensures
        result@ == lifted_to(term@, from@, to@),
{
    if from.equals(to) {
        term
    } else {
        Term::injection(from.duplicate(), to.duplicate(), term)
    }
}

#[verifier::spinoff_prover]
fn narrow_overload<K: Kernel>(
    definition: &BackendDefinition<K>,
    pattern: &Pattern,
    substitution: &Substitution,
    term: &Term,
    candidates: &Vec<Symbol>,
    variable: &Variable,
    target: &Sort,
    counter: &mut u64,
) -> (result: Option<(Substitution, Vec<Predicate>)>)
    ensures
        (result.deep_view(), *final(counter)) == overload_narrowed(
            definition,
            pattern@,
            substitution@,
            term@,
            deep(candidates@),
            variable@,
            target@,
            *old(counter),
        ),
{
    if candidates.len() != 1 {
        return None;
    }
    assert(deep(candidates@)[0] == candidates[0]@);
    let candidate = &candidates[0];
    let mut avoided = pattern_variable_names(pattern);
    collect_value_names(substitution, &mut avoided);
    let arguments = make_fresh_arguments(&candidate.argument_sorts, avoided, counter);
    let applied = Term::application(candidate.duplicate(), Vec::new(), arguments);
    let value = lift_to(applied.duplicate(), &candidate.result_sort, &variable.sort);
    let lifted = lift_to(applied, &candidate.result_sort, target);
    match match_terms_in_definition(MatchMode::Rewrite, definition, term, &lifted) {
        MatchResult::Success(found) => {
            let ghost expected = seq![PredicateV::Equals(TermV::Variable(variable@), value@)];
            let mut conditions: Vec<Predicate> = Vec::new();
            conditions.push(Predicate::equality(Term::variable(variable.duplicate()), value));
            assert(deep(conditions@) =~= expected);
            Some((compose(&found, substitution), conditions))
        },
        _ => None,
    }
}

/// Match an overloaded application with an injected variable.
#[verifier::spinoff_prover]
pub(crate) fn recover_overload_symbolic_match<K: Kernel>(
    definition: &BackendDefinition<K>,
    pattern: &Pattern,
    substitution: &Substitution,
    remainder: &Vec<(Term, Term)>,
    counter: &mut u64,
) -> (result: Option<(Substitution, Vec<Predicate>)>)
    ensures
        (result.deep_view(), *final(counter)) == overload_symbolic(
            definition,
            pattern@,
            substitution@,
            deep(remainder@),
            *old(counter),
        ),
{
    if remainder.len() != 1 {
        return None;
    }
    assert(deep(remainder@)[0] == (remainder[0].0@, remainder[0].1@));
    let term = substitute(&remainder[0].0, substitution);
    let subject = substitute(&remainder[0].1, substitution);
    proof {
        lemma_term_view(subject);
    }
    let symbol = match find_applied_symbol(&term) {
        Some(symbol) => symbol,
        None => {
            return None;
        },
    };
    match &subject {
        Term::Injection { target, term: inner, .. } => {
            proof {
                lemma_term_view(**inner);
            }
            match &**inner {
                Term::Variable(variable) => {
                    let candidates = find_overload_candidates(
                        definition,
                        &symbol.name,
                        &variable.sort,
                    );
                    narrow_overload(
                        definition,
                        pattern,
                        substitution,
                        &term,
                        &candidates,
                        variable,
                        target,
                        counter,
                    )
                },
                _ => None,
            }
        },
        _ => None,
    }
}

} // verus!
