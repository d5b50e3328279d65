//! Search over the execution tree.

use vstd::prelude::*;
use crate::definition::BackendDefinition;
use crate::execution::effects_of;
use crate::execution_parts::{
    deeper, join_names, joined, lemma_steps_push, lemma_steps_simplified, next_depth, rewrite_steps,
    trace_simplifications, with_simplifications,
};
use crate::execution_types::{TraceEntry, TraceEntryV, TraceKind};
use crate::kernel::{result_view, BuiltinEffect, BuiltinEffectV, Kernel};
use crate::model::{deep, group_deep, Value};
use crate::pattern::{Pattern, PatternV};
use crate::predicate::Predicate;
use crate::rewrite_types::{
    AppliedRule, AppliedRuleV, IndeterminateReason, IndeterminateReasonV, RemainderBranch,
    RemainderBranchV, RewriteResult, RewriteResultV,
};
use crate::search_types::{
    IncompleteSearch, IncompleteSearchV, SearchOptions, SearchResult, SearchResultV, SearchState,
    SearchStateV, SearchType,
};
use crate::simplification::{
    conjunction_simplified, simplified, simplify_predicates_with_solver, simplify_with_solver,
};
use crate::simplify_parts::Environment;
use crate::simplify_types::{
    BudgetPolicy, SimplificationError, SimplificationErrorV, SimplificationOptions,
};
use crate::solver::{NoSolver, SmtSolver};
use crate::step::{rewrite_step_with_options, stepped, ExecutionMode};

verus! {

broadcast use group_deep;

/// How far states are simplified.
pub open spec fn simplification_of(options: SearchOptions) -> SimplificationOptions {
    SimplificationOptions {
        max_iterations: options.max_simplification_iterations,
        budget: BudgetPolicy::Fail,
    }
}

/// How far states are simplified.
pub(crate) fn simplification_options(options: SearchOptions) -> (result: SimplificationOptions)
    ensures
        result == simplification_of(options),
{
    SimplificationOptions {
        max_iterations: options.max_simplification_iterations,
        budget: BudgetPolicy::Fail,
    }
}

/// What a search runs under.
pub struct SearchConfig<'a, K: Kernel, S: SmtSolver> {
    pub definition: &'a BackendDefinition<K>,
    pub solver: &'a S,
    pub options: SearchOptions,
}

/// What a search has found, and what is left to do.
pub struct SearchProgress {
    /// The states to be taken up, the next one first.
    pub pending: Vec<SearchState>,
    pub states: Vec<SearchState>,
    pub effects: Vec<BuiltinEffect>,
    pub incomplete: Vec<IncompleteSearch>,
    /// The counter for fresh names.
    pub counter: u64,
}

/// The view of [`SearchProgress`].
pub struct SearchProgressV {
    pub pending: Seq<SearchStateV>,
    pub states: Seq<SearchStateV>,
    pub effects: Seq<BuiltinEffectV>,
    pub incomplete: Seq<IncompleteSearchV>,
    pub counter: u64,
}

impl View for SearchProgress {
    type V = SearchProgressV;

    open spec fn view(&self) -> SearchProgressV {
        SearchProgressV {
            pending: deep(self.pending@),
            states: deep(self.states@),
            effects: deep(self.effects@),
            incomplete: deep(self.incomplete@),
            counter: self.counter,
        }
    }
}

// ---------------------------------------------------------------------------------------------
// What is recorded
// ---------------------------------------------------------------------------------------------
/// That a state could not be simplified.
pub open spec fn simplification_incomplete_of(
    state: SearchStateV,
    error: SimplificationErrorV,
) -> IncompleteSearchV {
    match error {
        SimplificationErrorV::Cancelled => IncompleteSearchV::Cancelled(state),
        error => IncompleteSearchV::Simplification { state, error },
    }
}

/// That a state could not be simplified. To be cancelled is no failure of the simplification.
pub fn simplification_incomplete(state: SearchState, error: SimplificationError) -> (result:
    IncompleteSearch)
    ensures
        result@ == simplification_incomplete_of(state@, error@),
{
    match error {
        SimplificationError::Cancelled => IncompleteSearch::Cancelled(state),
        error => IncompleteSearch::Simplification { state, error },
    }
}

/// That it is not known how a state is rewritten.
pub open spec fn rewrite_incomplete_of(
    state: SearchStateV,
    reason: IndeterminateReasonV,
) -> IncompleteSearchV {
    match reason {
        IndeterminateReasonV::Simplification { error, .. } => simplification_incomplete_of(
            state,
            error,
        ),
        reason => IncompleteSearchV::Indeterminate { state, reason },
    }
}

/// That it is not known how a state is rewritten.
pub fn rewrite_incomplete(state: SearchState, reason: IndeterminateReason) -> (result:
    IncompleteSearch)
    ensures
        result@ == rewrite_incomplete_of(state@, reason@),
{
    match reason {
        IndeterminateReason::Simplification { error, .. } => simplification_incomplete(
            state,
            error,
        ),
        reason => IncompleteSearch::Indeterminate { state, reason },
    }
}

/// `progress` with one more thing that the search may miss.
pub open spec fn with_incomplete(
    progress: SearchProgressV,
    missed: IncompleteSearchV,
) -> SearchProgressV {
    SearchProgressV { incomplete: progress.incomplete.push(missed), ..progress }
}

/// Whether one of the first `count` states has the pattern.
pub open spec fn has_pattern(states: Seq<SearchStateV>, pattern: PatternV, count: int) -> bool
    decreases count,
{
    count > 0 && (states[count - 1].pattern == pattern || has_pattern(states, pattern, count - 1))
}

/// The states with one more, unless one has its pattern.
pub open spec fn with_state(states: Seq<SearchStateV>, state: SearchStateV) -> Seq<SearchStateV> {
    if has_pattern(states, state.pattern, states.len() as int) {
        states
    } else {
        states.push(state)
    }
}

/// Whether there are as many states as asked for.
pub open spec fn bound_reached(states: Seq<SearchStateV>, max_results: Option<usize>) -> bool {
    max_results is Some && states.len() >= max_results->0
}

/// Add a state unless one has its pattern, and tell whether there are as many as asked for.
pub fn push_unique(
    states: &mut Vec<SearchState>,
    state: SearchState,
    max_results: Option<usize>,
) -> (reached: bool)
    ensures
        deep(final(states)@) == with_state(deep(old(states)@), state@),
        reached == bound_reached(deep(final(states)@), max_results),
{
    let mut known = false;
    let mut i: usize = 0;
    while i < states.len()
        invariant
            i <= states.len(),
            states@ == old(states)@,
            known == has_pattern(deep(states@), state@.pattern, i as int),
        decreases states.len() - i,
    {
        assert(deep(states@)[i as int] == states[i as int]@);
        known = states[i].pattern.equals(&state.pattern) || known;
        i += 1;
    }
    if !known {
        states.push(state);
    }
    match max_results {
        Some(limit) => states.len() >= limit,
        None => false,
    }
}

/// The state behind a rule.
pub open spec fn search_state_after(state: SearchStateV, applied: AppliedRuleV) -> SearchStateV {
    SearchStateV {
        pattern: applied.pattern,
        depth: deeper(state.depth),
        trace: state.trace.push(
            TraceEntryV {
                depth: deeper(state.depth),
                kind: TraceKind::Rewrite,
                label: applied.label,
                unique_id: applied.unique_id,
            },
        ),
    }
}

fn next_state(state: &SearchState, applied: &AppliedRule) -> (next: SearchState)
    ensures
        next@ == search_state_after(state@, applied@),
{
    let depth = next_depth(state.depth);
    let mut trace = state.trace.duplicate();
    trace.push(
        TraceEntry {
            depth,
            kind: TraceKind::Rewrite,
            label: applied.label.duplicate(),
            unique_id: applied.unique_id.duplicate(),
        },
    );
    SearchState { pattern: applied.pattern.duplicate(), depth, trace }
}

/// The state that rules leave.
pub open spec fn search_state_left(state: SearchStateV, remainder: RemainderBranchV) -> SearchStateV {
    SearchStateV {
        pattern: remainder.pattern,
        depth: state.depth,
        trace: state.trace.push(
            TraceEntryV {
                depth: state.depth,
                kind: TraceKind::Remainder,
                label: None,
                unique_id: joined(remainder.rule_ids, Seq::empty(), 0),
            },
        ),
    }
}

fn remaining_state(state: &SearchState, remainder: &RemainderBranch) -> (next: SearchState)
    ensures
        next@ == search_state_left(state@, remainder@),
{
    let mut trace = state.trace.duplicate();
    trace.push(
        TraceEntry {
            depth: state.depth,
            kind: TraceKind::Remainder,
            label: None,
            unique_id: join_names(&remainder.rule_ids),
        },
    );
    SearchState { pattern: remainder.pattern.duplicate(), depth: state.depth, trace }
}

// ---------------------------------------------------------------------------------------------
// Simplifying a state
// ---------------------------------------------------------------------------------------------
/// A state simplified, with the effects of that; or what the search misses, where it cannot be.
pub open spec fn search_simplified<'a, K: Kernel, S: SmtSolver>(
    config: SearchConfig<'a, K, S>,
    state: SearchStateV,
) -> Result<(SearchStateV, Seq<BuiltinEffectV>), IncompleteSearchV> {
    let options = simplification_of(config.options);
    match conjunction_simplified(
        config.definition,
        config.solver,
        state.pattern.constraints,
        Seq::empty(),
        options,
    ) {
        Err(error) => Err(simplification_incomplete_of(state, error)),
        Ok(constraints) => match simplified(
            config.definition,
            config.solver,
            state.pattern.term,
            constraints,
            options,
        ) {
            Err(error) => Err(
                simplification_incomplete_of(
                    SearchStateV {
                        pattern: PatternV { constraints, ..state.pattern },
                        ..state
                    },
                    error,
                ),
            ),
            Ok(result) => Ok(
                (
                    SearchStateV {
                        pattern: PatternV {
                            term: result.term,
                            constraints: constraints + result.constraints,
                        },
                        trace: with_simplifications(
                            state.trace,
                            state.depth,
                            result.applied_rules,
                            0,
                        ),
                        ..state
                    },
                    result.effects,
                ),
            ),
        },
    }
}

#[verifier::spinoff_prover]
pub(crate) fn simplify_state<'a, K: Kernel, S: SmtSolver>(
    config: &SearchConfig<'a, K, S>,
    state: SearchState,
) -> (result: Result<(SearchState, Vec<BuiltinEffect>), IncompleteSearch>)
    ensures
        result_view(result) == search_simplified(*config, state@),
{
    let options = simplification_options(config.options);
    let none: Vec<Predicate> = Vec::new();
    let SearchState { pattern, depth, mut trace } = state;
    let constraints = match simplify_predicates_with_solver(
        config.definition,
        &pattern.constraints,
        &none,
        options,
        config.solver,
    ) {
        Ok(constraints) => constraints,
        Err(error) => {
            return Err(simplification_incomplete(SearchState { pattern, depth, trace }, error));
        },
    };
    match simplify_with_solver(
        config.definition,
        &pattern.term,
        &constraints,
        options,
        config.solver,
    ) {
        Err(error) => Err(
            simplification_incomplete(
                SearchState {
                    pattern: Pattern { term: pattern.term, constraints },
                    depth,
                    trace,
                },
                error,
            ),
        ),
        Ok(result) => {
            let mut all = constraints;
            let mut more = result.constraints;
            all.append(&mut more);
            trace_simplifications(&mut trace, depth, &result.applied_rules);
            Ok(
                (
                    SearchState {
                        pattern: Pattern { term: result.term, constraints: all },
                        depth,
                        trace,
                    },
                    result.effects,
                ),
            )
        },
    }
}

// ---------------------------------------------------------------------------------------------
// One state
// ---------------------------------------------------------------------------------------------
/// Whether a state is returned because it is reached, at its depth.
pub open spec fn selects_reachable(search_type: SearchType, depth: u64) -> bool {
    match search_type {
        SearchType::Star => true,
        SearchType::Plus => depth > 0,
        SearchType::One => depth == 1,
        SearchType::Final => false,
    }
}

pub(crate) fn selects_reachable_state(search_type: SearchType, depth: u64) -> (result: bool)
    ensures
        result == selects_reachable(search_type, depth),
{
    match search_type {
        SearchType::Star => true,
        SearchType::Plus => depth > 0,
        SearchType::One => depth == 1,
        SearchType::Final => false,
    }
}

/// A rewrite step of a state.
pub open spec fn search_step<'a, K: Kernel, S: SmtSolver>(
    config: SearchConfig<'a, K, S>,
    state: SearchStateV,
    counter: u64,
) -> (RewriteResultV, u64) {
    stepped(
        Environment { definition: config.definition, solver: config.solver },
        state.pattern,
        counter,
        simplification_of(config.options),
        ExecutionMode::All,
        false,
    )
}

/// Whether a state at which the search stops may have successors that were not explored, and the
/// counter for fresh names behind that. A search that ends where its bound is reached is complete.
pub open spec fn may_expand<'a, K: Kernel, S: SmtSolver>(
    config: SearchConfig<'a, K, S>,
    state: SearchStateV,
    counter: u64,
) -> (bool, u64) {
    if config.options.search_type is One && state.depth == 1 {
        (false, counter)
    } else if state.depth >= config.options.max_depth {
        (true, counter)
    } else {
        match search_step(config, state, counter) {
            (RewriteResultV::Stuck(_), after) => (false, after),
            (RewriteResultV::Trivial(_), after) => (false, after),
            (RewriteResultV::Vacuous(_), after) => (false, after),
            (_, after) => (true, after),
        }
    }
}

pub(crate) fn state_may_expand<'a, K: Kernel, S: SmtSolver>(
    config: &SearchConfig<'a, K, S>,
    state: &SearchState,
    counter: &mut u64,
) -> (result: bool)
    ensures
        (result, *final(counter)) == may_expand(*config, state@, *old(counter)),
{
    if matches!(config.options.search_type, SearchType::One) && state.depth == 1 {
        return false;
    }
    if state.depth >= config.options.max_depth {
        return true;
    }
    match rewrite_step_with_options(
        config.definition,
        &state.pattern,
        counter,
        simplification_options(config.options),
        config.solver,
    ) {
        RewriteResult::Stuck(_) | RewriteResult::Trivial(_) | RewriteResult::Vacuous(_) => false,
        _ => true,
    }
}

/// A state that cannot be rewritten, returned; and whether the search goes on.
pub open spec fn final_state_taken<'a, K: Kernel, S: SmtSolver>(
    config: SearchConfig<'a, K, S>,
    progress: SearchProgressV,
    state: SearchStateV,
) -> (SearchProgressV, bool) {
    let found = SearchProgressV { states: with_state(progress.states, state), ..progress };
    if !bound_reached(found.states, config.options.max_results) {
        (found, true)
    } else if progress.pending.len() > 0 {
        (with_incomplete(found, IncompleteSearchV::ResultBound), false)
    } else {
        (found, false)
    }
}

fn take_final_state<'a, K: Kernel, S: SmtSolver>(
    config: &SearchConfig<'a, K, S>,
    progress: &mut SearchProgress,
    state: SearchState,
) -> (goes_on: bool)
    ensures
        (final(progress)@, goes_on) == final_state_taken(*config, old(progress)@, state@),
{
    if !push_unique(&mut progress.states, state, config.options.max_results) {
        return true;
    }
    if progress.pending.len() > 0 {
        progress.incomplete.push(IncompleteSearch::ResultBound);
    }
    false
}

/// The states behind the rules from `from` on, behind `found`.
pub open spec fn search_states_after(
    state: SearchStateV,
    branches: Seq<AppliedRuleV>,
    found: Seq<SearchStateV>,
    from: int,
) -> Seq<SearchStateV>
    decreases branches.len() - from,
{
    if from >= branches.len() {
        found
    } else {
        search_states_after(
            state,
            branches,
            found.push(search_state_after(state, branches[from])),
            from + 1,
        )
    }
}

/// The successors of a state behind those to be taken up; and whether the search goes on. Where
/// these are too many, the search ends.
pub open spec fn successors_taken<'a, K: Kernel, S: SmtSolver>(
    config: SearchConfig<'a, K, S>,
    progress: SearchProgressV,
    state: SearchStateV,
    branches: Seq<AppliedRuleV>,
    remainder: Option<RemainderBranchV>,
) -> (SearchProgressV, bool) {
    let after = search_states_after(state, branches, progress.pending, 0);
    let pending = match remainder {
        Some(remainder) => after.push(search_state_left(state, remainder)),
        None => after,
    };
    let progress = SearchProgressV {
        effects: effects_of(branches, progress.effects, 0),
        ..progress
    };
    if config.options.max_breadth is Some && pending.len() > config.options.max_breadth->0 {
        (
            with_incomplete(
                SearchProgressV { pending: Seq::empty(), ..progress },
                IncompleteSearchV::BreadthBound(pending),
            ),
            false,
        )
    } else {
        (SearchProgressV { pending, ..progress }, true)
    }
}

#[verifier::spinoff_prover]
fn take_successors<'a, K: Kernel, S: SmtSolver>(
    config: &SearchConfig<'a, K, S>,
    progress: &mut SearchProgress,
    state: &SearchState,
    branches: &Vec<AppliedRule>,
    remainder: &Option<RemainderBranch>,
) -> (goes_on: bool)
    ensures
        (final(progress)@, goes_on) == successors_taken(
            *config,
            old(progress)@,
            state@,
            deep(branches@),
            remainder.deep_view(),
        ),
{
    let mut pending: Vec<SearchState> = Vec::new();
    pending.append(&mut progress.pending);
    let mut effects: Vec<BuiltinEffect> = Vec::new();
    effects.append(&mut progress.effects);
    let ghost start = deep(pending@);
    let ghost start_effects = deep(effects@);
    let mut i: usize = 0;
    while i < branches.len()
        invariant
            i <= branches.len(),
            search_states_after(state@, deep(branches@), start, 0) == search_states_after(
                state@,
                deep(branches@),
                deep(pending@),
                i as int,
            ),
            effects_of(deep(branches@), start_effects, 0) == effects_of(
                deep(branches@),
                deep(effects@),
                i as int,
            ),
        decreases branches.len() - i,
    {
        assert(deep(branches@)[i as int] == branches[i as int]@);
        let mut more = branches[i].effects.duplicate();
        effects.append(&mut more);
        pending.push(next_state(state, &branches[i]));
        i += 1;
    }
    progress.effects = effects;
    if let Some(remainder) = remainder {
        pending.push(remaining_state(state, remainder));
    }
    if let Some(bound) = config.options.max_breadth {
        if pending.len() > bound {
            progress.incomplete.push(IncompleteSearch::BreadthBound(pending));
            progress.pending = Vec::new();
            return false;
        }
    }
    progress.pending = pending;
    true
}

/// What follows a rewrite step of a state; and whether the search goes on.
pub open spec fn search_rewritten<'a, K: Kernel, S: SmtSolver>(
    config: SearchConfig<'a, K, S>,
    progress: SearchProgressV,
    state: SearchStateV,
    result: RewriteResultV,
) -> (SearchProgressV, bool) {
    let at_bound = state.depth >= config.options.max_depth;
    match result {
        RewriteResultV::Stuck(pattern) => if at_bound || config.options.search_type is Final {
            final_state_taken(config, progress, SearchStateV { pattern, ..state })
        } else {
            (progress, true)
        },
        RewriteResultV::Trivial(_) => (progress, true),
        RewriteResultV::Vacuous(_) => (progress, true),
        RewriteResultV::Indeterminate { pattern, reason } => (
            with_incomplete(
                progress,
                rewrite_incomplete_of(SearchStateV { pattern, ..state }, reason),
            ),
            true,
        ),
        RewriteResultV::Finished(applied) => if at_bound {
            (with_incomplete(progress, IncompleteSearchV::DepthBound(state)), true)
        } else {
            successors_taken(config, progress, state, seq![applied], None)
        },
        RewriteResultV::Branch { branches, remainder, .. } => if at_bound {
            (with_incomplete(progress, IncompleteSearchV::DepthBound(state)), true)
        } else {
            successors_taken(config, progress, state, branches, remainder)
        },
    }
}

#[verifier::spinoff_prover]
fn take_rewrite<'a, K: Kernel, S: SmtSolver>(
    config: &SearchConfig<'a, K, S>,
    progress: &mut SearchProgress,
    state: SearchState,
    result: RewriteResult,
) -> (goes_on: bool)
    ensures
        (final(progress)@, goes_on) == search_rewritten(*config, old(progress)@, state@, result@),
{
    let at_bound = state.depth >= config.options.max_depth;
    match result {
        RewriteResult::Stuck(pattern) => {
            if at_bound || matches!(config.options.search_type, SearchType::Final) {
                let next = SearchState { pattern, depth: state.depth, trace: state.trace };
                take_final_state(config, progress, next)
            } else {
                true
            }
        },
        RewriteResult::Trivial(_) => true,
        RewriteResult::Vacuous(_) => true,
        RewriteResult::Indeterminate { pattern, reason } => {
            let next = SearchState { pattern, depth: state.depth, trace: state.trace };
            progress.incomplete.push(rewrite_incomplete(next, reason));
            true
        },
        RewriteResult::Finished(applied) => {
            if at_bound {
                progress.incomplete.push(IncompleteSearch::DepthBound(state));
                true
            } else {
                let ghost expected = seq![applied@];
                let mut branches: Vec<AppliedRule> = Vec::new();
                branches.push(applied);
                assert(deep(branches@) =~= expected);
                take_successors(config, progress, &state, &branches, &None)
            }
        },
        RewriteResult::Branch { branches, remainder, .. } => {
            if at_bound {
                progress.incomplete.push(IncompleteSearch::DepthBound(state));
                true
            } else {
                take_successors(config, progress, &state, &branches, &remainder)
            }
        },
    }
}

/// What becomes of a state that was simplified, and whether the search goes on.
pub open spec fn search_expanded<'a, K: Kernel, S: SmtSolver>(
    config: SearchConfig<'a, K, S>,
    progress: SearchProgressV,
    state: SearchStateV,
) -> (SearchProgressV, bool) {
    if config.options.search_type is One && state.depth == 1 {
        (progress, true)
    } else if state.depth >= config.options.max_depth && !(config.options.search_type is Final) {
        (with_incomplete(progress, IncompleteSearchV::DepthBound(state)), true)
    } else {
        let (result, counter) = search_step(config, state, progress.counter);
        search_rewritten(config, SearchProgressV { counter, ..progress }, state, result)
    }
}

#[verifier::spinoff_prover]
pub(crate) fn expand_state<'a, K: Kernel, S: SmtSolver>(
    config: &SearchConfig<'a, K, S>,
    progress: &mut SearchProgress,
    state: SearchState,
) -> (goes_on: bool)
    ensures
        (final(progress)@, goes_on) == search_expanded(*config, old(progress)@, state@),
{
    if matches!(config.options.search_type, SearchType::One) && state.depth == 1 {
        return true;
    }
    if state.depth >= config.options.max_depth && !matches!(
        config.options.search_type,
        SearchType::Final
    ) {
        progress.incomplete.push(IncompleteSearch::DepthBound(state));
        return true;
    }
    let mut counter: u64 = progress.counter;
    let result = rewrite_step_with_options(
        config.definition,
        &state.pattern,
        &mut counter,
        simplification_options(config.options),
        config.solver,
    );
    progress.counter = counter;
    take_rewrite(config, progress, state, result)
}

/// What becomes of a state, and whether the search goes on.
#[verifier::opaque]
pub open spec fn search_taken<'a, K: Kernel, S: SmtSolver>(
    config: SearchConfig<'a, K, S>,
    progress: SearchProgressV,
    state: SearchStateV,
) -> (SearchProgressV, bool) {
    match search_simplified(config, state) {
        Err(missed) => (with_incomplete(progress, missed), true),
        Ok((state, effects)) => {
            let progress = SearchProgressV { effects: progress.effects + effects, ..progress };
            if selects_reachable(config.options.search_type, state.depth) {
                let found = SearchProgressV {
                    states: with_state(progress.states, state),
                    ..progress
                };
                if !bound_reached(found.states, config.options.max_results) {
                    search_expanded(config, found, state)
                } else if found.pending.len() > 0 {
                    (with_incomplete(found, IncompleteSearchV::ResultBound), false)
                } else {
                    let (expands, counter) = may_expand(config, state, found.counter);
                    let found = SearchProgressV { counter, ..found };
                    if expands {
                        (with_incomplete(found, IncompleteSearchV::ResultBound), false)
                    } else {
                        (found, false)
                    }
                }
            } else {
                search_expanded(config, progress, state)
            }
        },
    }
}

#[verifier::spinoff_prover]
fn take_state<'a, K: Kernel, S: SmtSolver>(
    config: &SearchConfig<'a, K, S>,
    progress: &mut SearchProgress,
    state: SearchState,
) -> (goes_on: bool)
    ensures
        (final(progress)@, goes_on) == search_taken(*config, old(progress)@, state@),
{
    reveal(search_taken);
    let (next, effects) = match simplify_state(config, state) {
        Ok(result) => result,
        Err(missed) => {
            progress.incomplete.push(missed);
            return true;
        },
    };
    let mut effects = effects;
    progress.effects.append(&mut effects);
    if selects_reachable_state(config.options.search_type, next.depth) {
        if push_unique(&mut progress.states, next.duplicate(), config.options.max_results) {
            if progress.pending.len() > 0 {
                progress.incomplete.push(IncompleteSearch::ResultBound);
                return false;
            }
            let mut counter: u64 = progress.counter;
            let expands = state_may_expand(config, &next, &mut counter);
            progress.counter = counter;
            if expands {
                progress.incomplete.push(IncompleteSearch::ResultBound);
            }
            return false;
        }
    }
    expand_state(config, progress, next)
}

// ---------------------------------------------------------------------------------------------
// The search
// ---------------------------------------------------------------------------------------------
/// The search with at most `fuel` states taken up.
pub open spec fn search_run<'a, K: Kernel, S: SmtSolver>(
    config: SearchConfig<'a, K, S>,
    progress: SearchProgressV,
    fuel: nat,
) -> SearchProgressV
    decreases fuel,
{
    if fuel == 0 || progress.pending.len() == 0 {
        progress
    } else {
        let (next, goes_on) = search_taken(
            config,
            SearchProgressV { pending: progress.pending.remove(0), ..progress },
            progress.pending[0],
        );
        if goes_on {
            search_run(config, next, (fuel - 1) as nat)
        } else {
            next
        }
    }
}

/// How many states a search may take up: no machine takes up so many.
pub const SEARCHED_STATES: usize = usize::MAX;

/// The state that a search starts from.
pub open spec fn first_state(initial: PatternV) -> SearchStateV {
    SearchStateV { pattern: initial, depth: 0, trace: Seq::empty() }
}

/// What a search has found before it starts.
pub open spec fn search_start(initial: PatternV) -> SearchProgressV {
    SearchProgressV {
        pending: seq![first_state(initial)],
        states: Seq::empty(),
        effects: Seq::empty(),
        incomplete: Seq::empty(),
        counter: 0,
    }
}

/// What a search finds.
pub open spec fn searched<'a, K: Kernel, S: SmtSolver>(
    config: SearchConfig<'a, K, S>,
    initial: PatternV,
) -> SearchResultV {
    if config.options.max_breadth == Some(0usize) {
        SearchResultV {
            states: Seq::empty(),
            effects: Seq::empty(),
            incomplete: seq![IncompleteSearchV::BreadthBound(seq![first_state(initial)])],
        }
    } else if config.options.max_results == Some(0usize) {
        SearchResultV {
            states: Seq::empty(),
            effects: Seq::empty(),
            incomplete: seq![IncompleteSearchV::ResultBound],
        }
    } else {
        let progress = search_run(config, search_start(initial), SEARCHED_STATES as nat);
        SearchResultV {
            states: progress.states,
            effects: progress.effects,
            incomplete: progress.incomplete,
        }
    }
}

fn missing_only(missed: IncompleteSearch) -> (result: SearchResult)
    ensures
        result@ == (SearchResultV {
            states: Seq::empty(),
            effects: Seq::empty(),
            incomplete: seq![missed@],
        }),
{
    let ghost expected = seq![missed@];
    let mut incomplete: Vec<IncompleteSearch> = Vec::new();
    incomplete.push(missed);
    assert(deep(incomplete@) =~= expected);
    SearchResult { states: Vec::new(), effects: Vec::new(), incomplete }
}

/// Search without a solver.
pub fn search_graph<K: Kernel>(
    definition: &BackendDefinition<K>,
    initial: Pattern,
    options: SearchOptions,
) -> (result: SearchResult)
    ensures
        result@ == searched(SearchConfig { definition, solver: &NoSolver, options }, initial@),
{
    search_graph_with_solver(definition, initial, options, &NoSolver)
}

/// Search with a solver.
pub fn search_graph_with_solver<K: Kernel, S: SmtSolver>(
    definition: &BackendDefinition<K>,
    initial: Pattern,
    options: SearchOptions,
    solver: &S,
) -> (result: SearchResult)
    ensures
        result@ == searched(SearchConfig { definition, solver, options }, initial@),
{
    let mut observer: Vec<BuiltinEffect> = Vec::new();
    search_graph_with_solver_and_observer(definition, initial, options, solver, &mut observer)
}

/// Search with a solver. The observer gets the effects of builtin functions, in their order.
#[verifier::spinoff_prover]
pub fn search_graph_with_solver_and_observer<K: Kernel, S: SmtSolver>(
    definition: &BackendDefinition<K>,
    initial: Pattern,
    options: SearchOptions,
    solver: &S,
    observer: &mut Vec<BuiltinEffect>,
) -> (result: SearchResult)
    ensures
        result@ == searched(SearchConfig { definition, solver, options }, initial@),
        deep(final(observer)@) == deep(old(observer)@) + result@.effects,
{
    let config = SearchConfig { definition, solver, options };
    let state = SearchState { pattern: initial, depth: 0, trace: Vec::new() };
    let mut pending: Vec<SearchState> = Vec::new();
    pending.push(state);
    assert(deep(pending@) =~= seq![first_state(initial@)]);
    if let Some(0) = options.max_breadth {
        let result = missing_only(IncompleteSearch::BreadthBound(pending));
        assert(deep(observer@) =~= deep(observer@) + Seq::empty());
        return result;
    }
    if let Some(0) = options.max_results {
        let result = missing_only(IncompleteSearch::ResultBound);
        assert(deep(observer@) =~= deep(observer@) + Seq::empty());
        return result;
    }
    let progress = run_search(
        &config,
        SearchProgress {
            pending,
            states: Vec::new(),
            effects: Vec::new(),
            incomplete: Vec::new(),
            counter: 0,
        },
    );
    let SearchProgress { states, effects, incomplete, .. } = progress;
    let mut more = effects.duplicate();
    observer.append(&mut more);
    SearchResult { states, effects, incomplete }
}

#[verifier::spinoff_prover]
fn run_search<'a, K: Kernel, S: SmtSolver>(
    config: &SearchConfig<'a, K, S>,
    start: SearchProgress,
) -> (result: SearchProgress)
    ensures
        result@ == search_run(*config, start@, SEARCHED_STATES as nat),
{
    let mut progress = start;
    let mut fuel: usize = SEARCHED_STATES;
    while fuel > 0 && progress.pending.len() > 0
        invariant
            search_run(*config, start@, SEARCHED_STATES as nat) == search_run(
                *config,
                progress@,
                fuel as nat,
            ),
        decreases fuel,
    {
        let ghost before = deep(progress.pending@);
        assert(before[0] == progress.pending[0]@);
        let state = progress.pending.remove(0);
        assert(deep(progress.pending@) =~= before.remove(0));
        if !take_state(config, &mut progress, state) {
            return progress;
        }
        fuel -= 1;
    }
    progress
}

// ---------------------------------------------------------------------------------------------
// Laws
// ---------------------------------------------------------------------------------------------
/// Whether the depth of a state is the number of rewrite steps on the way to it, and within the
/// bound.
pub open spec fn is_reached(options: SearchOptions, state: SearchStateV) -> bool {
    rewrite_steps(state.trace, state.trace.len() as int) == state.depth && state.depth
        <= options.max_depth
}

/// Whether no two states have the same pattern.
pub open spec fn patterns_differ(states: Seq<SearchStateV>) -> bool {
    forall|i: int, j: int|
        0 <= i < j < states.len() ==> (#[trigger] states[i]).pattern != (
        #[trigger] states[j]).pattern
}

/// What every search keeps: its states are reached as their traces say, those that it returns have
/// different patterns, and are of the depth that it asks for.
pub open spec fn search_invariant(options: SearchOptions, progress: SearchProgressV) -> bool {
    &&& forall|i: int|
        0 <= i < progress.pending.len() ==> is_reached(options, #[trigger] progress.pending[i])
    &&& forall|i: int|
        0 <= i < progress.states.len() ==> is_reached(options, #[trigger] progress.states[i])
            && asked_for(options.search_type, progress.states[i].depth)
    &&& patterns_differ(progress.states)
}

/// Whether a search of the given type may return a state of the given depth.
pub open spec fn asked_for(search_type: SearchType, depth: u64) -> bool {
    search_type is Final || selects_reachable(search_type, depth)
}

proof fn lemma_has_pattern(states: Seq<SearchStateV>, pattern: PatternV, count: int)
    requires
        0 <= count <= states.len(),
    ensures
        has_pattern(states, pattern, count) <==> exists|i: int|
            0 <= i < count && (#[trigger] states[i]).pattern == pattern,
    decreases count,
{
    if count > 0 {
        lemma_has_pattern(states, pattern, count - 1);
        if states[count - 1].pattern == pattern {
            assert(0 <= count - 1 < count);
        }
    }
}

proof fn lemma_with_state(options: SearchOptions, progress: SearchProgressV, state: SearchStateV)
    requires
        search_invariant(options, progress),
        is_reached(options, state),
        asked_for(options.search_type, state.depth),
    ensures
        search_invariant(
            options,
            SearchProgressV { states: with_state(progress.states, state), ..progress },
        ),
{
    let states = progress.states;
    lemma_has_pattern(states, state.pattern, states.len() as int);
    let after = with_state(states, state);
    assert forall|i: int, j: int| 0 <= i < j < after.len() implies (#[trigger] after[i]).pattern
        != (#[trigger] after[j]).pattern by {
        if j < states.len() {
            assert(after[i] == states[i] && after[j] == states[j]);
        } else {
            assert(after[i] == states[i]);
        }
    }
}

proof fn lemma_successor(options: SearchOptions, state: SearchStateV, applied: AppliedRuleV)
    requires
        is_reached(options, state),
        state.depth < options.max_depth,
    ensures
        is_reached(options, search_state_after(state, applied)),
{
    let next = search_state_after(state, applied);
    lemma_steps_push(state.trace, next.trace.last(), state.trace.len() as int);
    assert(next.trace == state.trace.push(next.trace.last()));
}

proof fn lemma_left(options: SearchOptions, state: SearchStateV, remainder: RemainderBranchV)
    requires
        is_reached(options, state),
    ensures
        is_reached(options, search_state_left(state, remainder)),
{
    let next = search_state_left(state, remainder);
    lemma_steps_push(state.trace, next.trace.last(), state.trace.len() as int);
    assert(next.trace == state.trace.push(next.trace.last()));
}

proof fn lemma_successors(
    options: SearchOptions,
    state: SearchStateV,
    branches: Seq<AppliedRuleV>,
    found: Seq<SearchStateV>,
    from: int,
)
    requires
        is_reached(options, state),
        state.depth < options.max_depth,
        forall|i: int| 0 <= i < found.len() ==> is_reached(options, #[trigger] found[i]),
    ensures
        ({
            let after = search_states_after(state, branches, found, from);
            forall|i: int| 0 <= i < after.len() ==> is_reached(options, #[trigger] after[i])
        }),
    decreases branches.len() - from,
{
    if from < branches.len() {
        let next = search_state_after(state, branches[from]);
        lemma_successor(options, state, branches[from]);
        let more = found.push(next);
        assert forall|i: int| 0 <= i < more.len() implies is_reached(options, #[trigger] more[i]) by {
            if i < found.len() {
                assert(more[i] == found[i]);
            } else {
                assert(more[i] == next);
            }
        }
        lemma_successors(options, state, branches, more, from + 1);
        assert(search_states_after(state, branches, found, from) == search_states_after(
            state,
            branches,
            more,
            from + 1,
        ));
    }
}

proof fn lemma_successors_taken<'a, K: Kernel, S: SmtSolver>(
    config: SearchConfig<'a, K, S>,
    progress: SearchProgressV,
    state: SearchStateV,
    branches: Seq<AppliedRuleV>,
    remainder: Option<RemainderBranchV>,
)
    requires
        search_invariant(config.options, progress),
        is_reached(config.options, state),
        state.depth < config.options.max_depth,
    ensures
        search_invariant(
            config.options,
            successors_taken(config, progress, state, branches, remainder).0,
        ),
{
    lemma_successors(config.options, state, branches, progress.pending, 0);
    if let Some(remainder) = remainder {
        lemma_left(config.options, state, remainder);
    }
}

proof fn lemma_expanded<'a, K: Kernel, S: SmtSolver>(
    config: SearchConfig<'a, K, S>,
    progress: SearchProgressV,
    state: SearchStateV,
)
    requires
        search_invariant(config.options, progress),
        is_reached(config.options, state),
    ensures
        search_invariant(config.options, search_expanded(config, progress, state).0),
{
    let (result, counter) = search_step(config, state, progress.counter);
    let next = SearchProgressV { counter, ..progress };
    match result {
        RewriteResultV::Stuck(pattern) => {
            if config.options.search_type is Final {
                lemma_with_state(config.options, next, SearchStateV { pattern, ..state });
            }
        },
        RewriteResultV::Finished(applied) => {
            if state.depth < config.options.max_depth {
                lemma_successors_taken(config, next, state, seq![applied], None);
            }
        },
        RewriteResultV::Branch { branches, remainder, .. } => {
            if state.depth < config.options.max_depth {
                lemma_successors_taken(config, next, state, branches, remainder);
            }
        },
        _ => {},
    }
}

proof fn lemma_taken<'a, K: Kernel, S: SmtSolver>(
    config: SearchConfig<'a, K, S>,
    progress: SearchProgressV,
    state: SearchStateV,
)
    requires
        search_invariant(config.options, progress),
        is_reached(config.options, state),
    ensures
        search_invariant(config.options, search_taken(config, progress, state).0),
{
    reveal(search_taken);
    match search_simplified(config, state) {
        Err(_) => {},
        Ok((simple, effects)) => {
            lemma_simplified_is_reached(config, state);
            let next = SearchProgressV { effects: progress.effects + effects, ..progress };
            if selects_reachable(config.options.search_type, simple.depth) {
                lemma_with_state(config.options, next, simple);
                lemma_expanded(
                    config,
                    SearchProgressV { states: with_state(next.states, simple), ..next },
                    simple,
                );
            } else {
                lemma_expanded(config, next, simple);
            }
        },
    }
}

proof fn lemma_simplified_is_reached<'a, K: Kernel, S: SmtSolver>(
    config: SearchConfig<'a, K, S>,
    state: SearchStateV,
)
    requires
        is_reached(config.options, state),
        search_simplified(config, state) is Ok,
    ensures
        is_reached(config.options, search_simplified(config, state)->Ok_0.0),
{
    let options = simplification_of(config.options);
    match conjunction_simplified(
        config.definition,
        config.solver,
        state.pattern.constraints,
        Seq::empty(),
        options,
    ) {
        Ok(constraints) => {
            match simplified(
                config.definition,
                config.solver,
                state.pattern.term,
                constraints,
                options,
            ) {
                Ok(result) => {
                    lemma_steps_simplified(state.trace, state.depth, result.applied_rules, 0);
                },
                Err(_) => {},
            }
        },
        Err(_) => {},
    }
}

proof fn lemma_run<'a, K: Kernel, S: SmtSolver>(
    config: SearchConfig<'a, K, S>,
    progress: SearchProgressV,
    fuel: nat,
)
    requires
        search_invariant(config.options, progress),
    ensures
        search_invariant(config.options, search_run(config, progress, fuel)),
    decreases fuel,
{
    if fuel > 0 && progress.pending.len() > 0 {
        let rest = SearchProgressV { pending: progress.pending.remove(0), ..progress };
        assert forall|i: int| 0 <= i < rest.pending.len() implies is_reached(
            config.options,
            #[trigger] rest.pending[i],
        ) by {
            assert(rest.pending[i] == progress.pending[i + 1]);
        }
        lemma_taken(config, rest, progress.pending[0]);
        let (next, goes_on) = search_taken(config, rest, progress.pending[0]);
        if goes_on {
            lemma_run(config, next, (fuel - 1) as nat);
        }
    }
}

/// The states that a search returns are each reached in as many rewrite steps as their depth says,
/// which is within the bound and one that the search asks for; and no two have the same pattern.
pub proof fn law_search_states<'a, K: Kernel, S: SmtSolver>(
    config: SearchConfig<'a, K, S>,
    initial: PatternV,
)
    ensures
        ({
            let states = searched(config, initial).states;
            &&& patterns_differ(states)
            &&& forall|i: int|
                0 <= i < states.len() ==> is_reached(config.options, #[trigger] states[i])
                    && asked_for(config.options.search_type, states[i].depth)
        }),
{
    let start = search_start(initial);
    assert(rewrite_steps(start.pending[0].trace, 0) == 0);
    lemma_run(config, start, SEARCHED_STATES as nat);
}

proof fn lemma_taken_within<'a, K: Kernel, S: SmtSolver>(
    config: SearchConfig<'a, K, S>,
    progress: SearchProgressV,
    state: SearchStateV,
)
    requires
        config.options.max_results is Some,
        progress.states.len() < config.options.max_results->0,
    ensures
        ({
            let (next, goes_on) = search_taken(config, progress, state);
            &&& next.states.len() <= config.options.max_results->0
            &&& goes_on ==> next.states.len() < config.options.max_results->0
        }),
{
    reveal(search_taken);
}

proof fn lemma_run_within<'a, K: Kernel, S: SmtSolver>(
    config: SearchConfig<'a, K, S>,
    progress: SearchProgressV,
    fuel: nat,
)
    requires
        config.options.max_results is Some,
        progress.states.len() < config.options.max_results->0,
    ensures
        search_run(config, progress, fuel).states.len() <= config.options.max_results->0,
    decreases fuel,
{
    if fuel > 0 && progress.pending.len() > 0 {
        let rest = SearchProgressV { pending: progress.pending.remove(0), ..progress };
        lemma_taken_within(config, rest, progress.pending[0]);
        let (next, goes_on) = search_taken(config, rest, progress.pending[0]);
        if goes_on {
            lemma_run_within(config, next, (fuel - 1) as nat);
        }
    }
}

/// A search returns no more states than asked for.
pub proof fn law_search_within_bound<'a, K: Kernel, S: SmtSolver>(
    config: SearchConfig<'a, K, S>,
    initial: PatternV,
)
    requires
        config.options.max_results is Some,
    ensures
        searched(config, initial).states.len() <= config.options.max_results->0,
{
    if config.options.max_results->0 > 0 {
        lemma_run_within(config, search_start(initial), SEARCHED_STATES as nat);
    }
}

} // verus!
