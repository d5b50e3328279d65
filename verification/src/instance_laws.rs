//! What a search for instances of a pattern owes.

use vstd::prelude::*;
use crate::assoc::{assoc, assoc_from};
use crate::construct::occurs;
use crate::definition::BackendDefinition;
use crate::kernel::Kernel;
use crate::matcher::{definition_context, terms_matched};
use crate::matching::{MatchMode, MatchResultV};
use crate::pattern::{pattern_variables, PatternV};
use crate::pattern_search::{
    condition_normalized, equalities_solved, equality_solution, first_solution, found_matched,
    has_condition, match_incomplete_of, pattern_matched, states_matched, with_match,
};
use crate::predicate::PredicateV;
use crate::predicates::{predicate_substituted, predicates_substituted};
use crate::search::{simplification_of, SearchConfig};
use crate::search_types::{
    IncompleteSearchV, PatternMatchErrorV, PatternMatchV, SearchMatchV, SearchResultV, SearchStateV,
};
use crate::simplification::conjunction_simplified;
use crate::simplify_types::SimplificationOptions;
use crate::solver::{SatisfiabilityV, SmtErrorV, SmtSolver};
use crate::substitution::{composed, composed_values, SubstitutionV};
use crate::substitution_laws::{binds_once, lemma_composed_from, lemma_values};
use crate::term::{TermV, VariableV};
use crate::truth::{conjunction_truth, law_conjunction_false, truth_of};

verus! {

// ---------------------------------------------------------------------------------------------
// Reports
// ---------------------------------------------------------------------------------------------
/// Whether a condition is that of one of the matches.
pub open spec fn is_reported(matches: Seq<SearchMatchV>, condition: PatternMatchV) -> bool {
    exists|i: int|
        0 <= i < matches.len() && (#[trigger] matches[i]).substitution == condition.substitution
            && matches[i].constraints == condition.constraints
}

/// Whether a notice says that it is not known whether a state is an instance.
pub open spec fn is_about(notice: IncompleteSearchV, state: SearchStateV) -> bool {
    match notice {
        IncompleteSearchV::Match { state: own, .. } => own == state,
        IncompleteSearchV::Simplification { state: own, .. } => own == state,
        IncompleteSearchV::Smt { state: own, .. } => own == state,
        IncompleteSearchV::Cancelled(own) => own == state,
        _ => false,
    }
}

/// Whether one of the notices is about a state.
pub open spec fn is_noted(notices: Seq<IncompleteSearchV>, state: SearchStateV) -> bool {
    exists|i: int| 0 <= i < notices.len() && is_about(#[trigger] notices[i], state)
}

/// Whether a state was looked at: it is no instance, or its condition is reported, or it is noted
/// that this is not known.
pub open spec fn is_settled<'a, K: Kernel, S: SmtSolver>(
    config: SearchConfig<'a, K, S>,
    target: PatternV,
    state: SearchStateV,
    matches: Seq<SearchMatchV>,
    notices: Seq<IncompleteSearchV>,
) -> bool {
    match pattern_matched(
        config.definition,
        config.solver,
        target,
        state.pattern,
        simplification_of(config.options),
        false,
    ) {
        Ok(None) => true,
        Ok(Some(condition)) => is_reported(matches, condition),
        Err(_) => is_noted(notices, state),
    }
}

/// Whether a match is that of one of the states.
pub open spec fn is_backed<'a, K: Kernel, S: SmtSolver>(
    config: SearchConfig<'a, K, S>,
    target: PatternV,
    states: Seq<SearchStateV>,
    found: SearchMatchV,
) -> bool {
    &&& states.contains(found.state)
    &&& pattern_matched(
        config.definition,
        config.solver,
        target,
        found.state.pattern,
        simplification_of(config.options),
        false,
    ) == Ok::<Option<PatternMatchV>, PatternMatchErrorV>(
        Some(
            PatternMatchV { substitution: found.substitution, constraints: found.constraints },
        ),
    )
}

/// Whether all matches are those of the states.
pub open spec fn all_backed<'a, K: Kernel, S: SmtSolver>(
    config: SearchConfig<'a, K, S>,
    target: PatternV,
    states: Seq<SearchStateV>,
    matches: Seq<SearchMatchV>,
) -> bool {
    forall|i: int|
        0 <= i < matches.len() ==> is_backed(config, target, states, #[trigger] matches[i])
}

proof fn lemma_has_condition(matches: Seq<SearchMatchV>, condition: PatternMatchV, count: int)
    requires
        0 <= count <= matches.len(),
        has_condition(matches, condition, count),
    ensures
        is_reported(matches, condition),
    decreases count,
{
    let last = matches[count - 1];
    if !(last.substitution == condition.substitution && last.constraints
        == condition.constraints) {
        lemma_has_condition(matches, condition, count - 1);
    }
}

proof fn lemma_with_match(
    matches: Seq<SearchMatchV>,
    condition: PatternMatchV,
    state: SearchStateV,
)
    ensures
        is_reported(with_match(matches, condition, state), condition),
        matches.is_prefix_of(with_match(matches, condition, state)),
{
    let next = with_match(matches, condition, state);
    if has_condition(matches, condition, matches.len() as int) {
        lemma_has_condition(matches, condition, matches.len() as int);
    } else {
        assert(next[matches.len() as int].substitution == condition.substitution);
    }
}

proof fn lemma_states_matched<'a, K: Kernel, S: SmtSolver>(
    config: SearchConfig<'a, K, S>,
    target: PatternV,
    states: Seq<SearchStateV>,
    matches: Seq<SearchMatchV>,
    notices: Seq<IncompleteSearchV>,
    from: int,
)
    requires
        0 <= from <= states.len(),
        all_backed(config, target, states, matches),
    ensures
        ({
            let (after, noted) = states_matched(config, target, states, matches, notices, from);
            &&& matches.is_prefix_of(after)
            &&& notices.is_prefix_of(noted)
            &&& all_backed(config, target, states, after)
            &&& forall|i: int|
                from <= i < states.len() ==> noted.contains(IncompleteSearchV::ResultBound)
                    || is_settled(config, target, #[trigger] states[i], after, noted)
            &&& noted.contains(IncompleteSearchV::ResultBound) ==> notices.contains(
                IncompleteSearchV::ResultBound,
            ) || (config.options.max_results is Some && after.len()
                >= config.options.max_results->0)
        }),
    decreases states.len() - from,
{
    if from < states.len() {
        let state = states[from];
        let (after, noted) = states_matched(config, target, states, matches, notices, from);
        match pattern_matched(
            config.definition,
            config.solver,
            target,
            state.pattern,
            simplification_of(config.options),
            false,
        ) {
            Ok(None) => {
                lemma_states_matched(config, target, states, matches, notices, from + 1);
            },
            Err(error) => {
                let notice = match_incomplete_of(state, error);
                let more = notices.push(notice);
                lemma_states_matched(config, target, states, matches, more, from + 1);
                assert(more[notices.len() as int] == notice);
                assert(noted[notices.len() as int] == notice);
                assert(is_about(noted[notices.len() as int], state));
                if more.contains(IncompleteSearchV::ResultBound) {
                    let i: int = choose|i: int|
                        0 <= i < more.len() && more[i] == IncompleteSearchV::ResultBound;
                    assert(notices[i] == more[i]);
                }
            },
            Ok(Some(condition)) => {
                let next = with_match(matches, condition, state);
                lemma_with_match(matches, condition, state);
                assert(all_backed(config, target, states, next)) by {
                    assert forall|i: int| 0 <= i < next.len() implies is_backed(
                        config,
                        target,
                        states,
                        #[trigger] next[i],
                    ) by {
                        if i < matches.len() {
                            assert(next[i] == matches[i]);
                        } else {
                            assert(states.contains(states[from]));
                        }
                    }
                }
                if config.options.max_results is Some && next.len()
                    >= config.options.max_results->0 {
                    if from + 1 < states.len() {
                        assert(noted[notices.len() as int] == IncompleteSearchV::ResultBound);
                    }
                } else {
                    lemma_states_matched(config, target, states, next, notices, from + 1);
                    let i: int = choose|i: int|
                        0 <= i < next.len() && (#[trigger] next[i]).substitution
                            == condition.substitution && next[i].constraints
                            == condition.constraints;
                    assert(after[i] == next[i]);
                }
                assert(is_reported(after, condition));
            },
        }
    }
}

/// A search reports the instances among the states that it found. Each state is no instance, or
/// its condition is reported, or it is noted that this is not known; unless the bound on results
/// was reached, and that is noted. Every match is that of a state, and what was noted before stays
/// noted.
pub proof fn law_instances_are_reported<'a, K: Kernel, S: SmtSolver>(
    config: SearchConfig<'a, K, S>,
    target: PatternV,
    found: SearchResultV,
)
    ensures
        ({
            let result = found_matched(config, target, found);
            let bound = IncompleteSearchV::ResultBound;
            &&& found.incomplete.is_prefix_of(result.incomplete)
            &&& all_backed(config, target, found.states, result.matches)
            &&& forall|i: int|
                0 <= i < found.states.len() ==> result.incomplete.contains(bound) || is_settled(
                    config,
                    target,
                    #[trigger] found.states[i],
                    result.matches,
                    result.incomplete,
                )
            &&& result.incomplete.contains(bound) ==> found.incomplete.contains(bound) || (
            config.options.max_results is Some && result.matches.len()
                >= config.options.max_results->0)
        }),
{
    lemma_states_matched(config, target, found.states, Seq::empty(), found.incomplete, 0);
}

// ---------------------------------------------------------------------------------------------
// Conditions
// ---------------------------------------------------------------------------------------------
/// A predicate under one substitution after another.
pub open spec fn under_all(predicate: PredicateV, steps: Seq<SubstitutionV>) -> PredicateV
    decreases steps.len(),
{
    if steps.len() == 0 {
        predicate
    } else {
        under_all(predicate_substituted(predicate, steps[0]), steps.skip(1))
    }
}

/// Whether a predicate is among others, under some substitutions one after another.
pub open spec fn stands_among(predicate: PredicateV, others: Seq<PredicateV>) -> bool {
    exists|steps: Seq<SubstitutionV>| others.contains(#[trigger] under_all(predicate, steps))
}

proof fn lemma_stands_before(
    predicate: PredicateV,
    step: SubstitutionV,
    others: Seq<PredicateV>,
)
    requires
        stands_among(predicate_substituted(predicate, step), others),
    ensures
        stands_among(predicate, others),
{
    let steps = choose|steps: Seq<SubstitutionV>|
        others.contains(#[trigger] under_all(predicate_substituted(predicate, step), steps));
    let all = seq![step] + steps;
    assert(all[0] == step);
    assert(all.skip(1) =~= steps);
    assert(under_all(predicate, all) == under_all(predicate_substituted(predicate, step), steps));
}

proof fn lemma_solution_at(constraints: Seq<PredicateV>, solved: SubstitutionV, from: int)
    requires
        0 <= from,
    ensures
        match first_solution(constraints, solved, from) {
            Some((index, solution)) => 0 <= index < constraints.len() && equality_solution(
                constraints[index],
                solved,
            ) == Some(solution),
            None => true,
        },
    decreases constraints.len() - from,
{
    if from < constraints.len() && equality_solution(constraints[from], solved) is None {
        lemma_solution_at(constraints, solved, from + 1);
    }
}

proof fn lemma_conditions_stand(
    constraints: Seq<PredicateV>,
    solved: SubstitutionV,
    at: int,
)
    requires
        0 <= at < constraints.len(),
        !(constraints[at] is Equals),
    ensures
        stands_among(constraints[at], equalities_solved(constraints, solved).1),
    decreases constraints.len(),
{
    let predicate = constraints[at];
    lemma_solution_at(constraints, solved, 0);
    match first_solution(constraints, solved, 0) {
        None => {
            assert(under_all(predicate, Seq::empty()) == predicate);
            assert(constraints.contains(predicate));
        },
        Some((index, solution)) => {
            assert(constraints[index] is Equals);
            let less = constraints.remove(index);
            let next = if at < index {
                at
            } else {
                at - 1
            };
            assert(less[next] == predicate);
            match solution {
                None => {
                    lemma_conditions_stand(less, solved, next);
                },
                Some((variable, value)) => {
                    let binding = seq![(variable, value)];
                    let after = predicates_substituted(less, binding);
                    assert(after[next] == predicate_substituted(predicate, binding));
                    lemma_conditions_stand(after, composed(binding, solved), next);
                    lemma_stands_before(
                        predicate,
                        binding,
                        equalities_solved(constraints, solved).1,
                    );
                },
            }
        },
    }
}

/// The condition of a match keeps every constraint that is no equality, under the bindings that
/// the equalities give: only equalities are solved.
pub proof fn law_conditions_are_kept(
    output: SubstitutionV,
    constraints: Seq<PredicateV>,
    variables: Seq<VariableV>,
    at: int,
)
    requires
        0 <= at < constraints.len(),
        !(constraints[at] is Equals),
    ensures
        stands_among(
            constraints[at],
            condition_normalized(output, constraints, variables).1,
        ),
{
    let (solved, left) = equalities_solved(constraints, Seq::empty());
    let made = predicates_substituted(left, solved);
    lemma_conditions_stand(constraints, Seq::empty(), at);
    let steps = choose|steps: Seq<SubstitutionV>|
        left.contains(#[trigger] under_all(constraints[at], steps));
    let now = under_all(constraints[at], steps);
    let i: int = choose|i: int| 0 <= i < left.len() && left[i] == now;
    assert(made[i] == predicate_substituted(now, solved));
    lemma_one_more(constraints[at], steps, solved);
    assert(made.contains(under_all(constraints[at], steps.push(solved))));
}

proof fn lemma_one_more(predicate: PredicateV, steps: Seq<SubstitutionV>, last: SubstitutionV)
    ensures
        under_all(predicate, steps.push(last)) == predicate_substituted(
            under_all(predicate, steps),
            last,
        ),
    decreases steps.len(),
{
    let all = steps.push(last);
    if steps.len() == 0 {
        assert(all[0] == last);
        assert(all.skip(1) =~= Seq::empty());
        assert(under_all(predicate_substituted(predicate, last), all.skip(1))
            == predicate_substituted(predicate, last));
    } else {
        assert(all[0] == steps[0]);
        assert(all.skip(1) =~= steps.skip(1).push(last));
        lemma_one_more(predicate_substituted(predicate, steps[0]), steps.skip(1), last);
    }
}

/// Whether an equality holds as it stands, or says the value of a variable that has one in a
/// substitution.
pub open spec fn is_value(predicate: PredicateV, solved: SubstitutionV) -> bool {
    match predicate {
        PredicateV::Equals(left, right) => {
            ||| left == right
            ||| left is Variable && assoc(solved, left->Variable_0) is Some && !occurs(
                left->Variable_0,
                right,
            )
            ||| right is Variable && assoc(solved, right->Variable_0) is Some && !occurs(
                right->Variable_0,
                left,
            )
        },
        _ => false,
    }
}

/// Whether a predicate, under some substitutions one after another, is an equality that holds or
/// says the value of a variable that has one.
pub open spec fn is_solved(predicate: PredicateV, solved: SubstitutionV) -> bool {
    exists|steps: Seq<SubstitutionV>| is_value(#[trigger] under_all(predicate, steps), solved)
}

proof fn lemma_solved_before(
    predicate: PredicateV,
    step: SubstitutionV,
    solved: SubstitutionV,
)
    requires
        is_solved(predicate_substituted(predicate, step), solved),
    ensures
        is_solved(predicate, solved),
{
    let steps = choose|steps: Seq<SubstitutionV>|
        is_value(#[trigger] under_all(predicate_substituted(predicate, step), steps), solved);
    let all = seq![step] + steps;
    assert(all[0] == step);
    assert(all.skip(1) =~= steps);
    assert(under_all(predicate, all) == under_all(predicate_substituted(predicate, step), steps));
}

proof fn lemma_stays_bound(
    variable: VariableV,
    value: TermV,
    solved: SubstitutionV,
    other: VariableV,
)
    requires
        assoc(solved, other) is Some || other == variable,
    ensures
        assoc(composed(seq![(variable, value)], solved), other) is Some,
{
    let one = seq![(variable, value)];
    assert(one[0] == (variable, value));
    assert(binds_once(one));
    lemma_values(one, solved, other, 0);
    lemma_composed_from(one, solved, composed_values(one, solved), other, 0);
    reveal_with_fuel(assoc_from, 3);
}

proof fn lemma_solutions_stay(
    constraints: Seq<PredicateV>,
    solved: SubstitutionV,
    variable: VariableV,
)
    requires
        assoc(solved, variable) is Some,
    ensures
        assoc(equalities_solved(constraints, solved).0, variable) is Some,
    decreases constraints.len(),
{
    lemma_solution_at(constraints, solved, 0);
    match first_solution(constraints, solved, 0) {
        None => {},
        Some((index, None)) => {
            lemma_solutions_stay(constraints.remove(index), solved, variable);
        },
        Some((index, Some((own, value)))) => {
            let binding = seq![(own, value)];
            lemma_stays_bound(own, value, solved, variable);
            lemma_solutions_stay(
                predicates_substituted(constraints.remove(index), binding),
                composed(binding, solved),
                variable,
            );
        },
    }
}

/// To solve equalities loses none: each is left among the constraints, under the bindings that are
/// found, or it is solved. A solved one holds as it stands under these bindings, or says the value
/// of a variable that has a value in the result.
pub proof fn law_equalities_are_solved(
    constraints: Seq<PredicateV>,
    solved: SubstitutionV,
    at: int,
)
    requires
        0 <= at < constraints.len(),
    ensures
        ({
            let (bindings, left) = equalities_solved(constraints, solved);
            stands_among(constraints[at], left) || is_solved(constraints[at], bindings)
        }),
    decreases constraints.len(),
{
    let predicate = constraints[at];
    let (bindings, left) = equalities_solved(constraints, solved);
    lemma_solution_at(constraints, solved, 0);
    match first_solution(constraints, solved, 0) {
        None => {
            assert(under_all(predicate, Seq::empty()) == predicate);
            assert(constraints.contains(predicate));
        },
        Some((index, solution)) => {
            let less = constraints.remove(index);
            let next = if at < index {
                at
            } else {
                at - 1
            };
            if at == index {
                let steps = Seq::<SubstitutionV>::empty().push(solved);
                lemma_one_more(predicate, Seq::empty(), solved);
                let now = under_all(predicate, steps);
                assert(now == predicate_substituted(predicate, solved));
                if let Some((variable, value)) = solution {
                    let binding = seq![(variable, value)];
                    lemma_stays_bound(variable, value, solved, variable);
                    lemma_solutions_stay(
                        predicates_substituted(less, binding),
                        composed(binding, solved),
                        variable,
                    );
                }
                assert(is_value(now, bindings));
            } else {
                assert(less[next] == predicate);
                match solution {
                    None => {
                        law_equalities_are_solved(less, solved, next);
                    },
                    Some((variable, value)) => {
                        let binding = seq![(variable, value)];
                        let after = predicates_substituted(less, binding);
                        assert(after[next] == predicate_substituted(predicate, binding));
                        law_equalities_are_solved(after, composed(binding, solved), next);
                        if stands_among(after[next], left) {
                            lemma_stands_before(predicate, binding, left);
                        } else {
                            lemma_solved_before(predicate, binding, bindings);
                        }
                    },
                }
            }
        },
    }
}

/// Whether `condition` is what the constraints of a subject and of a target come down to: every
/// constraint that is no equality stands in it.
pub open spec fn is_condition(
    target: PatternV,
    subject: PatternV,
    substitution: SubstitutionV,
    condition: Seq<PredicateV>,
) -> bool {
    &&& forall|i: int|
        0 <= i < subject.constraints.len() && !((#[trigger] subject.constraints[i]) is Equals)
            ==> stands_among(subject.constraints[i], condition)
    &&& forall|i: int|
        0 <= i < target.constraints.len() && !((#[trigger] target.constraints[i]) is Equals)
            ==> stands_among(
            predicate_substituted(target.constraints[i], substitution),
            condition,
        )
}

/// Whether the constraints of a match cannot hold.
pub open spec fn is_refuted<S: SmtSolver>(
    solver: &S,
    substitution: SubstitutionV,
    constraints: Seq<PredicateV>,
) -> bool {
    (exists|i: int| 0 <= i < constraints.len() && truth_of(#[trigger] constraints[i]) is False)
        || solver.satisfiability(constraints, substitution) == Ok::<SatisfiabilityV, SmtErrorV>(
        SatisfiabilityV::Unsat,
    )
}

/// Whether a pattern is an instance is decided by the match of the terms and by the constraints of
/// both patterns. There is no instance where the terms do not match, and else only where the
/// constraints, simplified, cannot hold; and one where that is not so has the simplified
/// constraints as its condition.
pub proof fn law_instances_are_decided<K: Kernel, S: SmtSolver>(
    definition: &BackendDefinition<K>,
    solver: &S,
    target: PatternV,
    subject: PatternV,
    options: SimplificationOptions,
    retain_unknown: bool,
)
    ensures
        ({
            let result = pattern_matched(
                definition,
                solver,
                target,
                subject,
                options,
                retain_unknown,
            );
            match terms_matched(
                definition_context(MatchMode::Implies, definition),
                target.term,
                subject.term,
            ) {
                MatchResultV::Failed(_) => result == Ok::<
                    Option<PatternMatchV>,
                    PatternMatchErrorV,
                >(None),
                MatchResultV::Indeterminate { .. } => result is Err,
                MatchResultV::Success(substitution) => exists|condition: Seq<PredicateV>|
                    #[trigger] is_condition(target, subject, substitution, condition) && (
                    match conjunction_simplified(
                        definition,
                        solver,
                        condition,
                        Seq::empty(),
                        options,
                    ) {
                        Err(_) => result is Err,
                        Ok(simple) => match result {
                            Err(_) => !retain_unknown && conjunction_truth(simple) is Unknown,
                            Ok(None) => exists|bindings: SubstitutionV|
                                #[trigger] is_refuted(solver, bindings, simple),
                            Ok(Some(found)) => found.constraints == simple && !(conjunction_truth(
                                simple,
                            ) is False),
                        },
                    }),
            }
        }),
{
    if let MatchResultV::Success(substitution) = terms_matched(
        definition_context(MatchMode::Implies, definition),
        target.term,
        subject.term,
    ) {
        let owed = predicates_substituted(target.constraints, substitution);
        let all = subject.constraints + owed;
        let variables = pattern_variables(target);
        let (bindings, condition) = condition_normalized(substitution, all, variables);
        assert forall|i: int|
            0 <= i < subject.constraints.len() && !((
            #[trigger] subject.constraints[i]) is Equals) implies stands_among(
            subject.constraints[i],
            condition,
        ) by {
            assert(all[i] == subject.constraints[i]);
            law_conditions_are_kept(substitution, all, variables, i);
        }
        assert forall|i: int|
            0 <= i < target.constraints.len() && !((
            #[trigger] target.constraints[i]) is Equals) implies stands_among(
            predicate_substituted(target.constraints[i], substitution),
            condition,
        ) by {
            let at = subject.constraints.len() + i;
            assert(all[at] == owed[i]);
            assert(owed[i] == predicate_substituted(target.constraints[i], substitution));
            law_conditions_are_kept(substitution, all, variables, at);
        }
        assert(is_condition(target, subject, substitution, condition));
        if let Ok(simple) = conjunction_simplified(
            definition,
            solver,
            condition,
            Seq::empty(),
            options,
        ) {
            law_conjunction_false(simple);
            let result = pattern_matched(
                definition,
                solver,
                target,
                subject,
                options,
                retain_unknown,
            );
            if result == Ok::<Option<PatternMatchV>, PatternMatchErrorV>(None) {
                assert(is_refuted(solver, bindings, simple));
            }
        }
    }
}

} // verus!
