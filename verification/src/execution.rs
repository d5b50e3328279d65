//! Execution as a machine: every step of it is one piece of work, and between two of them the
//! execution may be interrupted.

use vstd::prelude::*;
use crate::definition::BackendDefinition;
use crate::execution_parts::{
    application_observed, at_breadth_bound, deeper, make_transition, next_depth, next_state,
    observe_application, observe_simplification, remaining_state, selected_stop_rule,
    simplification_observed, state_after, state_left, stop_at_breadth_bound, stop_rule,
    trace_simplifications, transition_by, with_simplifications, ExecutionConfig,
};
use crate::execution_types::{
    ExecutionBranchMode, ExecutionLeaf, ExecutionLeafV, ExecutionOptions, ExecutionResult,
    ExecutionResultV, ExecutionState, ExecutionStateV, HaltReason, HaltReasonV,
    InitialSimplificationStatus, ObservationOptions, ObservationPath, ObservationPathV,
    StepTimeoutMode, TraceEntry, TraceEntryV, UncommittedObservation, UncommittedObservationV,
    UncommittedReason,
};
use crate::kernel::{result_view, BuiltinEffect, BuiltinEffectV, Kernel};
use crate::leaves::{
    merge_equal_final_leaves, merged, select_got_stuck_over_depth_bound, selected,
    SelectedExecutionLeaves, SelectedExecutionLeavesV,
};
use crate::model::{deep, group_deep, Value};
use crate::pattern::{
    extracted, normalize_pattern_substitution, retain_substitution_predicates, retained_from,
    substitution_normalized, Pattern, PatternV,
};
use crate::predicate::{Predicate, PredicateV};
use crate::rewrite_types::{
    AppliedRule, AppliedRuleV, IndeterminateReason, IndeterminateReasonV, RemainderBranch,
    RemainderBranchV, RewriteResult, RewriteResultV,
};
use crate::simplification::{
    conjunction_simplified, pattern_simplified, simplified, simplify_pattern_details_with_solver,
    simplify_predicates_with_solver, simplify_with_solver,
};
use crate::simplify_types::{
    PatternSimplification, PatternSimplificationV, Simplification, SimplificationError,
    SimplificationErrorV, SimplificationV,
};
use crate::solver::{NoSolver, SmtSolver};
use crate::step::{rewrite_step_with_mode, stepped};
use crate::substitution::{Substitution, SubstitutionV};
use crate::truth::{conjunction_truth, predicates_truth, Truth};

verus! {

broadcast use group_deep;

/// Where an execution stands with the state at hand.
#[allow(inconsistent_fields)]
#[derive(Debug, PartialEq, Eq)]
pub enum Phase {
    /// The next state is to be taken up.
    Waiting,
    /// The constraints of the state are to be simplified.
    Started(ExecutionState),
    /// The constraints were simplified; the bindings are those that the state came with.
    Constrained {
        state: ExecutionState,
        retained: Substitution,
        outcome: Result<Vec<Predicate>, SimplificationError>,
    },
    /// The term was simplified. A contradiction that only the bindings of an input show is put off.
    Simplified {
        state: ExecutionState,
        deferred: Option<Pattern>,
        outcome: Result<Simplification, SimplificationError>,
    },
    /// A rewrite step was made.
    Rewritten { state: ExecutionState, deferred: Option<Pattern>, result: RewriteResult },
    /// The step takes a rule before which the execution stops.
    CutPoint { state: ExecutionState, rule: String, applied: AppliedRule },
    /// The step took a rule behind which the execution stops.
    Terminal { state: ExecutionState, rule: String },
    /// The step has several outcomes at which the execution stops.
    BranchPoint {
        state: ExecutionState,
        original: Pattern,
        branches: Vec<AppliedRule>,
        remainder: Option<RemainderBranch>,
    },
    /// There is nothing left to do.
    Finished,
}

/// The view of [`Phase`].
#[allow(inconsistent_fields)]
pub enum PhaseV {
    Waiting,
    Started(ExecutionStateV),
    Constrained {
        state: ExecutionStateV,
        retained: SubstitutionV,
        outcome: Result<Seq<PredicateV>, SimplificationErrorV>,
    },
    Simplified {
        state: ExecutionStateV,
        deferred: Option<PatternV>,
        outcome: Result<SimplificationV, SimplificationErrorV>,
    },
    Rewritten { state: ExecutionStateV, deferred: Option<PatternV>, result: RewriteResultV },
    CutPoint { state: ExecutionStateV, rule: Seq<char>, applied: AppliedRuleV },
    Terminal { state: ExecutionStateV, rule: Seq<char> },
    BranchPoint {
        state: ExecutionStateV,
        original: PatternV,
        branches: Seq<AppliedRuleV>,
        remainder: Option<RemainderBranchV>,
    },
    Finished,
}

impl View for Phase {
    type V = PhaseV;

    open spec fn view(&self) -> PhaseV {
        match self {
            Phase::Waiting => PhaseV::Waiting,
            Phase::Started(first) => PhaseV::Started(first@),
            Phase::Constrained { state, retained, outcome } => PhaseV::Constrained {
                state: state@,
                retained: retained@,
                outcome: result_view(*outcome),
            },
            Phase::Simplified { state, deferred, outcome } => PhaseV::Simplified {
                state: state@,
                deferred: deferred.deep_view(),
                outcome: result_view(*outcome),
            },
            Phase::Rewritten { state, deferred, result } => PhaseV::Rewritten {
                state: state@,
                deferred: deferred.deep_view(),
                result: result@,
            },
            Phase::CutPoint { state, rule, applied } => PhaseV::CutPoint {
                state: state@,
                rule: rule@,
                applied: applied@,
            },
            Phase::Terminal { state, rule } => PhaseV::Terminal { state: state@, rule: rule@ },
            Phase::BranchPoint { state, original, branches, remainder } => PhaseV::BranchPoint {
                state: state@,
                original: original@,
                branches: deep(branches@),
                remainder: remainder.deep_view(),
            },
            Phase::Finished => PhaseV::Finished,
        }
    }
}

impl DeepView for Phase {
    type V = PhaseV;

    open spec fn deep_view(&self) -> PhaseV {
        self@
    }
}

/// What an execution has found, and what is left to do.
pub struct Progress {
    /// The states to be taken up, the next one first.
    pub pending: Vec<ExecutionState>,
    pub leaves: SelectedExecutionLeaves,
    pub effects: Vec<BuiltinEffect>,
    pub discarded: Vec<UncommittedObservation>,
    /// The counter for fresh names.
    pub counter: u64,
    /// The number of inputs, of those that were simplified, and of those among them that are bottom.
    pub inputs: usize,
    pub completed: usize,
    pub bottom: usize,
}

/// The view of [`Progress`].
pub struct ProgressV {
    pub pending: Seq<ExecutionStateV>,
    pub leaves: SelectedExecutionLeavesV,
    pub effects: Seq<BuiltinEffectV>,
    pub discarded: Seq<UncommittedObservationV>,
    pub counter: u64,
    pub inputs: usize,
    pub completed: usize,
    pub bottom: usize,
}

impl View for Progress {
    type V = ProgressV;

    open spec fn view(&self) -> ProgressV {
        ProgressV {
            pending: deep(self.pending@),
            leaves: self.leaves@,
            effects: deep(self.effects@),
            discarded: deep(self.discarded@),
            counter: self.counter,
            inputs: self.inputs,
            completed: self.completed,
            bottom: self.bottom,
        }
    }
}

/// `progress` with one more leaf.
pub open spec fn with_leaf(progress: ProgressV, leaf: ExecutionLeafV) -> ProgressV {
    ProgressV { leaves: progress.leaves.pushed(leaf), ..progress }
}

/// `progress` with more effects.
pub open spec fn with_effects(progress: ProgressV, effects: Seq<BuiltinEffectV>) -> ProgressV {
    ProgressV { effects: progress.effects + effects, ..progress }
}

/// One more than `count`, up to `inputs`.
pub open spec fn one_more(count: usize, inputs: usize) -> usize {
    if count < inputs {
        (count + 1) as usize
    } else {
        count
    }
}

/// `progress` with one more input simplified.
pub open spec fn with_completed(progress: ProgressV, bottom: bool) -> ProgressV {
    ProgressV {
        completed: one_more(progress.completed, progress.inputs),
        bottom: if bottom {
            one_more(progress.bottom, progress.inputs)
        } else {
            progress.bottom
        },
        ..progress
    }
}

impl Progress {
    fn push_leaf(&mut self, leaf: ExecutionLeaf)
        ensures
            final(self)@ == with_leaf(old(self)@, leaf@),
    {
        self.leaves.push(leaf);
    }

    fn record_effects(&mut self, effects: &Vec<BuiltinEffect>)
        ensures
            final(self)@ == with_effects(old(self)@, deep(effects@)),
    {
        let mut more = effects.duplicate();
        self.effects.append(&mut more);
    }

    fn complete_input(&mut self, bottom: bool)
        ensures
            final(self)@ == with_completed(old(self)@, bottom),
    {
        if self.completed < self.inputs {
            self.completed = self.completed + 1;
        }
        if bottom && self.bottom < self.inputs {
            self.bottom = self.bottom + 1;
        }
    }
}

/// An execution.
pub struct Machine {
    pub progress: Progress,
    pub phase: Phase,
}

/// The view of a [`Machine`].
pub struct MachineV {
    pub progress: ProgressV,
    pub phase: PhaseV,
}

impl View for Machine {
    type V = MachineV;

    open spec fn view(&self) -> MachineV {
        MachineV { progress: self.progress@, phase: self.phase@ }
    }
}

/// The machine that is done with a state, which became a leaf.
pub open spec fn left_at(progress: ProgressV, leaf: ExecutionLeafV) -> MachineV {
    MachineV { progress: with_leaf(progress, leaf), phase: PhaseV::Waiting }
}

fn leave_at(progress: Progress, leaf: ExecutionLeaf) -> (machine: Machine)
    ensures
        machine@ == left_at(progress@, leaf@),
{
    let mut progress = progress;
    progress.push_leaf(leaf);
    Machine { progress, phase: Phase::Waiting }
}

// ---------------------------------------------------------------------------------------------
// Taking up a state
// ---------------------------------------------------------------------------------------------
/// The next state taken up.
pub open spec fn taken_up(progress: ProgressV) -> MachineV {
    if progress.pending.len() == 0 {
        MachineV { progress, phase: PhaseV::Finished }
    } else {
        MachineV {
            progress: ProgressV { pending: progress.pending.remove(0), ..progress },
            phase: PhaseV::Started(progress.pending[0]),
        }
    }
}

fn take_up(progress: Progress) -> (machine: Machine)
    ensures
        machine@ == taken_up(progress@),
{
    let mut progress = progress;
    if progress.pending.len() == 0 {
        return Machine { progress, phase: Phase::Finished };
    }
    let ghost before = deep(progress.pending@);
    assert(before[0] == progress.pending[0]@);
    let state = progress.pending.remove(0);
    assert(deep(progress.pending@) =~= before.remove(0));
    Machine { progress, phase: Phase::Started(state) }
}

/// The constraints of a state simplified, after its bindings were applied.
pub open spec fn constraints_tried<'a, K: Kernel, S: SmtSolver>(
    config: ExecutionConfig<'a, K, S>,
    progress: ProgressV,
    state: ExecutionStateV,
) -> MachineV {
    let sorts = config.definition.sort_graph@;
    let pattern = substitution_normalized(sorts, state.pattern);
    MachineV {
        progress,
        phase: PhaseV::Constrained {
            state: ExecutionStateV { pattern, ..state },
            retained: extracted(sorts, None, state.pattern.constraints).0,
            outcome: conjunction_simplified(
                config.definition,
                config.solver,
                pattern.constraints,
                Seq::empty(),
                config.spec_simplification(),
            ),
        },
    }
}

fn try_constraints<'a, K: Kernel, S: SmtSolver>(
    config: &ExecutionConfig<'a, K, S>,
    progress: Progress,
    state: ExecutionState,
) -> (machine: Machine)
    ensures
        machine@ == constraints_tried(*config, progress@, state@),
{
    let mut state = state;
    let retained = normalize_pattern_substitution(
        &mut state.pattern,
        &config.definition.sort_graph,
    );
    let none: Vec<Predicate> = Vec::new();
    let outcome = simplify_predicates_with_solver(
        config.definition,
        &state.pattern.constraints,
        &none,
        config.simplification(),
        config.solver,
    );
    Machine { progress, phase: Phase::Constrained { state, retained, outcome } }
}

// ---------------------------------------------------------------------------------------------
// Simplifying a state
// ---------------------------------------------------------------------------------------------
/// The pattern of a state with its constraints simplified.
pub open spec fn pattern_constrained<'a, K: Kernel, S: SmtSolver>(
    config: ExecutionConfig<'a, K, S>,
    pattern: PatternV,
    retained: SubstitutionV,
    constraints: Seq<PredicateV>,
) -> PatternV {
    let sorts = config.definition.sort_graph@;
    substitution_normalized(
        sorts,
        PatternV { constraints: retained_from(sorts, constraints, retained, 0), ..pattern },
    )
}

/// The term of a state simplified.
pub open spec fn term_tried<'a, K: Kernel, S: SmtSolver>(
    config: ExecutionConfig<'a, K, S>,
    progress: ProgressV,
    state: ExecutionStateV,
    deferred: Option<PatternV>,
) -> MachineV {
    MachineV {
        progress,
        phase: PhaseV::Simplified {
            state,
            deferred,
            outcome: simplified(
                config.definition,
                config.solver,
                state.pattern.term,
                state.pattern.constraints,
                config.spec_simplification(),
            ),
        },
    }
}

fn try_term<'a, K: Kernel, S: SmtSolver>(
    config: &ExecutionConfig<'a, K, S>,
    progress: Progress,
    state: ExecutionState,
    deferred: Option<Pattern>,
) -> (machine: Machine)
    ensures
        machine@ == term_tried(*config, progress@, state@, deferred.deep_view()),
{
    let outcome = simplify_with_solver(
        config.definition,
        &state.pattern.term,
        &state.pattern.constraints,
        config.simplification(),
        config.solver,
    );
    Machine { progress, phase: Phase::Simplified { state, deferred, outcome } }
}

/// What follows the simplification of the constraints. A state whose constraints do not hold is
/// vacuous; but where only the bindings of an input show that they do not, a rewrite step is tried
/// first.
pub open spec fn constraints_taken<'a, K: Kernel, S: SmtSolver>(
    config: ExecutionConfig<'a, K, S>,
    progress: ProgressV,
    state: ExecutionStateV,
    retained: SubstitutionV,
    outcome: Result<Seq<PredicateV>, SimplificationErrorV>,
) -> MachineV {
    match outcome {
        Err(error) => left_at(progress, state.leaf(HaltReasonV::Simplification(error))),
        Ok(constraints) => {
            let pattern = pattern_constrained(config, state.pattern, retained, constraints);
            if !(conjunction_truth(pattern.constraints) is False) {
                term_tried(config, progress, ExecutionStateV { pattern, ..state }, None)
            } else if state.depth == 0 && retained.len() > 0 {
                term_tried(config, progress, state, Some(pattern))
            } else {
                left_at(
                    if state.is_initial_input {
                        with_completed(progress, true)
                    } else {
                        progress
                    },
                    (ExecutionStateV { pattern, ..state }).leaf(HaltReasonV::Vacuous),
                )
            }
        },
    }
}

#[verifier::spinoff_prover]
fn take_constraints<'a, K: Kernel, S: SmtSolver>(
    config: &ExecutionConfig<'a, K, S>,
    progress: Progress,
    state: ExecutionState,
    retained: Substitution,
    outcome: Result<Vec<Predicate>, SimplificationError>,
) -> (machine: Machine)
    ensures
        machine@ == constraints_taken(
            *config,
            progress@,
            state@,
            retained@,
            result_view(outcome),
        ),
{
    let mut constraints = match outcome {
        Ok(constraints) => constraints,
        Err(error) => {
            return leave_at(progress, state.leaf(HaltReason::Simplification(error)));
        },
    };
    retain_substitution_predicates(&mut constraints, &retained, &config.definition.sort_graph);
    let mut pattern = Pattern { term: state.pattern.term.duplicate(), constraints };
    normalize_pattern_substitution(&mut pattern, &config.definition.sort_graph);
    if !matches!(predicates_truth(&pattern.constraints), Truth::False) {
        let mut state = state;
        state.pattern = pattern;
        return try_term(config, progress, state, None);
    }
    if state.depth == 0 && !retained.is_empty() {
        return try_term(config, progress, state, Some(pattern));
    }
    let mut progress = progress;
    if state.is_initial_input {
        progress.complete_input(true);
    }
    leave_at(progress, state.leaf_with_pattern(pattern, HaltReason::Vacuous))
}

/// A state with its term simplified, and what is recorded of that.
pub open spec fn state_simplified<'a, K: Kernel, S: SmtSolver>(
    config: ExecutionConfig<'a, K, S>,
    state: ExecutionStateV,
    result: SimplificationV,
) -> ExecutionStateV {
    let pattern = substitution_normalized(
        config.definition.sort_graph@,
        PatternV {
            term: result.term,
            constraints: state.pattern.constraints + result.constraints,
        },
    );
    ExecutionStateV {
        pattern,
        trace: with_simplifications(state.trace, state.depth, result.applied_rules, 0),
        path: simplification_observed(
            config,
            state.path,
            state.pattern,
            pattern,
            result.applied_rules,
            result.effects,
        ),
        ..state
    }
}

#[verifier::spinoff_prover]
fn simplify_state<'a, K: Kernel, S: SmtSolver>(
    config: &ExecutionConfig<'a, K, S>,
    state: ExecutionState,
    result: &Simplification,
) -> (next: ExecutionState)
    ensures
        next@ == state_simplified(*config, state@, result@),
{
    let ExecutionState { pattern: before, depth, mut trace, mut path, is_initial_input } = state;
    let mut constraints = before.constraints.duplicate();
    let mut more = result.constraints.duplicate();
    constraints.append(&mut more);
    let mut pattern = Pattern { term: result.term.duplicate(), constraints };
    normalize_pattern_substitution(&mut pattern, &config.definition.sort_graph);
    observe_simplification(
        config,
        &mut path,
        &before,
        &pattern,
        &result.applied_rules,
        &result.effects,
    );
    trace_simplifications(&mut trace, depth, &result.applied_rules);
    ExecutionState { pattern, depth, trace, path, is_initial_input }
}

/// What follows the simplification of the term: an input may be bottom, the depth may be reached,
/// or a rewrite step is made.
pub open spec fn term_taken<'a, K: Kernel, S: SmtSolver>(
    config: ExecutionConfig<'a, K, S>,
    progress: ProgressV,
    state: ExecutionStateV,
    deferred: Option<PatternV>,
    outcome: Result<SimplificationV, SimplificationErrorV>,
) -> MachineV {
    match outcome {
        Err(error) => left_at(progress, state.leaf(HaltReasonV::Simplification(error))),
        Ok(result) => {
            let state = state_simplified(config, state, result);
            let bottom = deferred is None && conjunction_truth(state.pattern.constraints) is False;
            let recorded = with_effects(progress, result.effects);
            let counted = if state.is_initial_input {
                with_completed(recorded, bottom)
            } else {
                recorded
            };
            if state.is_initial_input && bottom {
                left_at(counted, state.leaf(HaltReasonV::Vacuous))
            } else if state.depth >= config.options.max_depth {
                left_at(counted, state.leaf(HaltReasonV::DepthBound))
            } else {
                let (result, counter) = stepped(
                    config.environment(),
                    state.pattern,
                    counted.counter,
                    config.spec_simplification(),
                    config.options.mode,
                    config.options.assume_initial_defined,
                );
                MachineV {
                    progress: ProgressV { counter, ..counted },
                    phase: PhaseV::Rewritten { state, deferred, result },
                }
            }
        },
    }
}

#[verifier::spinoff_prover]
fn take_term<'a, K: Kernel, S: SmtSolver>(
    config: &ExecutionConfig<'a, K, S>,
    progress: Progress,
    state: ExecutionState,
    deferred: Option<Pattern>,
    outcome: Result<Simplification, SimplificationError>,
) -> (machine: Machine)
    ensures
        machine@ == term_taken(
            *config,
            progress@,
            state@,
            deferred.deep_view(),
            result_view(outcome),
        ),
{
    let result = match outcome {
        Ok(result) => result,
        Err(error) => {
            return leave_at(progress, state.leaf(HaltReason::Simplification(error)));
        },
    };
    let next = simplify_state(config, state, &result);
    let mut progress = progress;
    progress.record_effects(&result.effects);
    let bottom = deferred.is_none() && matches!(
        predicates_truth(&next.pattern.constraints),
        Truth::False
    );
    if next.is_initial_input {
        progress.complete_input(bottom);
        if bottom {
            return leave_at(progress, next.leaf(HaltReason::Vacuous));
        }
    }
    if next.depth >= config.options.max_depth {
        return leave_at(progress, next.leaf(HaltReason::DepthBound));
    }
    let mut counter: u64 = progress.counter;
    let result = rewrite_step_with_mode(
        config.definition,
        &next.pattern,
        &mut counter,
        config.simplification(),
        config.solver,
        config.options.mode,
        config.options.assume_initial_defined,
    );
    progress.counter = counter;
    Machine { progress, phase: Phase::Rewritten { state: next, deferred, result } }
}

// ---------------------------------------------------------------------------------------------
// The outcomes of a rewrite step
// ---------------------------------------------------------------------------------------------
/// `progress` with `next` before the states to be taken up. Where these are too many, all of them
/// become leaves, in place of those found so far.
pub open spec fn enqueued<'a, K: Kernel, S: SmtSolver>(
    config: ExecutionConfig<'a, K, S>,
    progress: ProgressV,
    next: Seq<ExecutionStateV>,
) -> MachineV {
    let pending = next + progress.pending;
    if config.options.max_breadth is Some && pending.len() > config.options.max_breadth->0 {
        MachineV {
            progress: ProgressV {
                pending: Seq::empty(),
                leaves: SelectedExecutionLeavesV {
                    retained: at_breadth_bound(pending, Seq::empty(), 0),
                    got_stuck: false,
                },
                ..progress
            },
            phase: PhaseV::Finished,
        }
    } else {
        MachineV { progress: ProgressV { pending, ..progress }, phase: PhaseV::Waiting }
    }
}

fn enqueue_execution_states<'a, K: Kernel, S: SmtSolver>(
    config: &ExecutionConfig<'a, K, S>,
    progress: Progress,
    next: Vec<ExecutionState>,
) -> (machine: Machine)
    ensures
        machine@ == enqueued(*config, progress@, deep(next@)),
{
    let mut progress = progress;
    let mut pending = next;
    pending.append(&mut progress.pending);
    if let Some(bound) = config.options.max_breadth {
        if pending.len() > bound {
            progress.leaves.replace_unselected(stop_at_breadth_bound(&pending));
            progress.pending = Vec::new();
            return Machine { progress, phase: Phase::Finished };
        }
    }
    progress.pending = pending;
    Machine { progress, phase: Phase::Waiting }
}

fn enqueue_one<'a, K: Kernel, S: SmtSolver>(
    config: &ExecutionConfig<'a, K, S>,
    progress: Progress,
    next: ExecutionState,
) -> (machine: Machine)
    ensures
        machine@ == enqueued(*config, progress@, seq![next@]),
{
    let mut states: Vec<ExecutionState> = Vec::new();
    states.push(next);
    assert(deep(states@) =~= seq![next@]);
    enqueue_execution_states(config, progress, states)
}

/// A result of a step simplified.
pub open spec fn result_tried<'a, K: Kernel, S: SmtSolver>(
    config: ExecutionConfig<'a, K, S>,
    pattern: PatternV,
) -> Result<PatternSimplificationV, SimplificationErrorV> {
    pattern_simplified(config.definition, config.solver, pattern, config.spec_simplification())
}

fn try_result<'a, K: Kernel, S: SmtSolver>(
    config: &ExecutionConfig<'a, K, S>,
    pattern: &Pattern,
) -> (result: Result<PatternSimplification, SimplificationError>)
    ensures
        result_view(result) == result_tried(*config, pattern@),
{
    simplify_pattern_details_with_solver(
        config.definition,
        pattern,
        config.simplification(),
        config.solver,
    )
}

/// A state with the simplification of a result recorded.
pub open spec fn result_recorded<'a, K: Kernel, S: SmtSolver>(
    config: ExecutionConfig<'a, K, S>,
    state: ExecutionStateV,
    before: PatternV,
    details: PatternSimplificationV,
) -> ExecutionStateV {
    ExecutionStateV {
        trace: with_simplifications(state.trace, state.depth, details.applied_rules, 0),
        path: simplification_observed(
            config,
            state.path,
            before,
            details.pattern,
            details.applied_rules,
            details.effects,
        ),
        ..state
    }
}

fn record_result<'a, K: Kernel, S: SmtSolver>(
    config: &ExecutionConfig<'a, K, S>,
    state: ExecutionState,
    before: &Pattern,
    details: &PatternSimplification,
) -> (next: ExecutionState)
    ensures
        next@ == result_recorded(*config, state@, before@, details@),
{
    let ExecutionState { pattern, depth, mut trace, mut path, is_initial_input } = state;
    observe_simplification(
        config,
        &mut path,
        before,
        &details.pattern,
        &details.applied_rules,
        &details.effects,
    );
    trace_simplifications(&mut trace, depth, &details.applied_rules);
    ExecutionState { pattern, depth, trace, path, is_initial_input }
}

/// What follows a step with one outcome by a rule before which the execution stops.
pub open spec fn cut_point_tried<'a, K: Kernel, S: SmtSolver>(
    config: ExecutionConfig<'a, K, S>,
    progress: ProgressV,
    state: ExecutionStateV,
    rule: Seq<char>,
    applied: AppliedRuleV,
) -> MachineV {
    let state = ExecutionStateV {
        path: application_observed(config, state.path, applied),
        ..state
    };
    match result_tried(config, applied.pattern) {
        Err(error) => left_at(
            progress,
            (ExecutionStateV { pattern: applied.pattern, ..state }).leaf(
                HaltReasonV::Simplification(error),
            ),
        ),
        Ok(details) => MachineV {
            progress: with_effects(progress, details.effects),
            phase: PhaseV::CutPoint {
                state: result_recorded(config, state, applied.pattern, details),
                rule,
                applied: AppliedRuleV { pattern: details.pattern, ..applied },
            },
        },
    }
}

#[verifier::spinoff_prover]
fn try_cut_point<'a, K: Kernel, S: SmtSolver>(
    config: &ExecutionConfig<'a, K, S>,
    progress: Progress,
    state: ExecutionState,
    rule: String,
    applied: AppliedRule,
) -> (machine: Machine)
    ensures
        machine@ == cut_point_tried(*config, progress@, state@, rule@, applied@),
{
    let ExecutionState { pattern, depth, trace, mut path, is_initial_input } = state;
    observe_application(config, &mut path, &applied);
    let next = ExecutionState { pattern, depth, trace, path, is_initial_input };
    match try_result(config, &applied.pattern) {
        Err(error) => leave_at(
            progress,
            next.leaf_with_pattern(applied.pattern, HaltReason::Simplification(error)),
        ),
        Ok(details) => {
            let mut progress = progress;
            progress.record_effects(&details.effects);
            let next = record_result(config, next, &applied.pattern, &details);
            let mut applied = applied;
            applied.pattern = details.pattern;
            Machine { progress, phase: Phase::CutPoint { state: next, rule, applied } }
        },
    }
}

/// What follows a step with one outcome by a rule behind which the execution stops.
pub open spec fn terminal_tried<'a, K: Kernel, S: SmtSolver>(
    config: ExecutionConfig<'a, K, S>,
    progress: ProgressV,
    next: ExecutionStateV,
    rule: Seq<char>,
) -> MachineV {
    match result_tried(config, next.pattern) {
        Err(error) => left_at(progress, next.leaf(HaltReasonV::Simplification(error))),
        Ok(details) => MachineV {
            progress: with_effects(progress, details.effects),
            phase: PhaseV::Terminal {
                state: ExecutionStateV {
                    pattern: details.pattern,
                    ..result_recorded(config, next, next.pattern, details)
                },
                rule,
            },
        },
    }
}

#[verifier::spinoff_prover]
fn try_terminal<'a, K: Kernel, S: SmtSolver>(
    config: &ExecutionConfig<'a, K, S>,
    progress: Progress,
    next: ExecutionState,
    rule: String,
) -> (machine: Machine)
    ensures
        machine@ == terminal_tried(*config, progress@, next@, rule@),
{
    match try_result(config, &next.pattern) {
        Err(error) => leave_at(progress, next.leaf(HaltReason::Simplification(error))),
        Ok(details) => {
            let mut progress = progress;
            progress.record_effects(&details.effects);
            let before = next.pattern.duplicate();
            let mut state = record_result(config, next, &before, &details);
            state.pattern = details.pattern;
            Machine { progress, phase: Phase::Terminal { state, rule } }
        },
    }
}

/// What follows a step with one outcome.
pub open spec fn single_outcome<'a, K: Kernel, S: SmtSolver>(
    config: ExecutionConfig<'a, K, S>,
    progress: ProgressV,
    state: ExecutionStateV,
    applied: AppliedRuleV,
) -> MachineV {
    let progress = with_effects(progress, applied.effects);
    match stop_rule(applied, deep(config.options.cut_point_rules@)) {
        Some(rule) => cut_point_tried(config, progress, state, rule, applied),
        None => {
            let next = state_after(config, state, applied);
            match stop_rule(applied, deep(config.options.terminal_rules@)) {
                Some(rule) => terminal_tried(config, progress, next, rule),
                None => enqueued(config, progress, seq![next]),
            }
        },
    }
}

#[verifier::spinoff_prover]
fn take_single_outcome<'a, K: Kernel, S: SmtSolver>(
    config: &ExecutionConfig<'a, K, S>,
    progress: Progress,
    state: ExecutionState,
    applied: AppliedRule,
) -> (machine: Machine)
    ensures
        machine@ == single_outcome(*config, progress@, state@, applied@),
{
    let mut progress = progress;
    progress.record_effects(&applied.effects);
    if let Some(rule) = selected_stop_rule(&applied, &config.options.cut_point_rules) {
        return try_cut_point(config, progress, state, rule, applied);
    }
    let terminal = selected_stop_rule(&applied, &config.options.terminal_rules);
    let next = next_state(config, &state, &applied);
    if let Some(rule) = terminal {
        return try_terminal(config, progress, next, rule);
    }
    enqueue_one(config, progress, next)
}

/// The effects of the rules from `from` on, behind `found`.
pub open spec fn effects_of(
    branches: Seq<AppliedRuleV>,
    found: Seq<BuiltinEffectV>,
    from: int,
) -> Seq<BuiltinEffectV>
    decreases branches.len() - from,
{
    if from >= branches.len() {
        found
    } else {
        effects_of(branches, found + branches[from].effects, from + 1)
    }
}

fn collect_effects(branches: &Vec<AppliedRule>) -> (result: Vec<BuiltinEffect>)
    ensures
        deep(result@) == effects_of(deep(branches@), Seq::empty(), 0),
{
    let mut found: Vec<BuiltinEffect> = Vec::new();
    let mut i: usize = 0;
    while i < branches.len()
        invariant
            i <= branches.len(),
            effects_of(deep(branches@), Seq::empty(), 0) == effects_of(
                deep(branches@),
                deep(found@),
                i as int,
            ),
        decreases branches.len() - i,
    {
        assert(deep(branches@)[i as int] == branches[i as int]@);
        let mut more = branches[i].effects.duplicate();
        found.append(&mut more);
        i += 1;
    }
    found
}

/// The states behind the rules from `from` on, behind `found`.
pub open spec fn states_after<'a, K: Kernel, S: SmtSolver>(
    config: ExecutionConfig<'a, K, S>,
    state: ExecutionStateV,
    branches: Seq<AppliedRuleV>,
    found: Seq<ExecutionStateV>,
    from: int,
) -> Seq<ExecutionStateV>
    decreases branches.len() - from,
{
    if from >= branches.len() {
        found
    } else {
        states_after(
            config,
            state,
            branches,
            found.push(state_after(config, state, branches[from])),
            from + 1,
        )
    }
}

/// What follows a step with several outcomes that are all explored.
pub open spec fn outcomes_explored<'a, K: Kernel, S: SmtSolver>(
    config: ExecutionConfig<'a, K, S>,
    progress: ProgressV,
    state: ExecutionStateV,
    branches: Seq<AppliedRuleV>,
    remainder: Option<RemainderBranchV>,
) -> MachineV {
    let next = states_after(config, state, branches, Seq::empty(), 0);
    enqueued(
        config,
        with_effects(progress, effects_of(branches, Seq::empty(), 0)),
        match remainder {
            Some(remainder) => next.push(state_left(config, state, remainder)),
            None => next,
        },
    )
}

#[verifier::spinoff_prover]
fn explore_outcomes<'a, K: Kernel, S: SmtSolver>(
    config: &ExecutionConfig<'a, K, S>,
    progress: Progress,
    state: ExecutionState,
    branches: &Vec<AppliedRule>,
    remainder: &Option<RemainderBranch>,
) -> (machine: Machine)
    ensures
        machine@ == outcomes_explored(
            *config,
            progress@,
            state@,
            deep(branches@),
            remainder.deep_view(),
        ),
{
    let mut next: Vec<ExecutionState> = Vec::new();
    let mut i: usize = 0;
    while i < branches.len()
        invariant
            i <= branches.len(),
            states_after(*config, state@, deep(branches@), Seq::empty(), 0) == states_after(
                *config,
                state@,
                deep(branches@),
                deep(next@),
                i as int,
            ),
        decreases branches.len() - i,
    {
        assert(deep(branches@)[i as int] == branches[i as int]@);
        next.push(next_state(config, &state, &branches[i]));
        i += 1;
    }
    if let Some(remainder) = remainder {
        next.push(remaining_state(config, &state, remainder));
    }
    let mut progress = progress;
    progress.record_effects(&collect_effects(branches));
    enqueue_execution_states(config, progress, next)
}

// ---------------------------------------------------------------------------------------------
// Stopping at a branch
// ---------------------------------------------------------------------------------------------
/// The outcomes of a step: those by rules, and what the rules leave.
pub type OutcomesV = (Seq<AppliedRuleV>, Option<RemainderBranchV>);

/// The outcomes of a step with what the rules leave rewritten in turn, as long as rules apply to
/// it, at most `fuel` times; and the counter for fresh names behind that.
pub open spec fn remainder_expanded<'a, K: Kernel, S: SmtSolver>(
    config: ExecutionConfig<'a, K, S>,
    branches: Seq<AppliedRuleV>,
    remainder: Option<RemainderBranchV>,
    counter: u64,
    fuel: nat,
) -> (Result<OutcomesV, SimplificationErrorV>, u64)
    decreases fuel,
{
    match remainder {
        None => (Ok((branches, None)), counter),
        Some(current) => if fuel == 0 {
            (Ok((branches, remainder)), counter)
        } else {
            match stepped(
                config.environment(),
                current.pattern,
                counter,
                config.spec_simplification(),
                config.options.mode,
                config.options.assume_initial_defined,
            ) {
                (RewriteResultV::Finished(applied), after) => (
                    Ok((seq![applied] + branches, None)),
                    after,
                ),
                (
                    RewriteResultV::Branch { branches: lower, remainder: lower_remainder, .. },
                    after,
                ) => remainder_expanded(
                    config,
                    lower + branches,
                    lower_remainder,
                    after,
                    (fuel - 1) as nat,
                ),
                (RewriteResultV::Indeterminate { reason, .. }, after) => match reason {
                    IndeterminateReasonV::Simplification { error, .. } => (Err(error), after),
                    _ => (Ok((branches, remainder)), after),
                },
                (RewriteResultV::Stuck(_), after) => (Ok((branches, remainder)), after),
                (RewriteResultV::Trivial(_), after) => (Ok((branches, None)), after),
                (RewriteResultV::Vacuous(_), after) => (Ok((branches, None)), after),
            }
        },
    }
}

/// How often what the rules leave may be rewritten: no machine goes so far.
pub const EXPANSIONS: usize = usize::MAX;

#[verifier::spinoff_prover]
fn expand_stopped_branch_remainder<'a, K: Kernel, S: SmtSolver>(
    config: &ExecutionConfig<'a, K, S>,
    branches: Vec<AppliedRule>,
    remainder: Option<RemainderBranch>,
    counter: &mut u64,
    fuel: usize,
) -> (result: Result<(Vec<AppliedRule>, Option<RemainderBranch>), SimplificationError>)
    ensures
        (result_view(result), *final(counter)) == remainder_expanded(
            *config,
            deep(branches@),
            remainder.deep_view(),
            *old(counter),
            fuel as nat,
        ),
    decreases fuel,
{
    let current = match remainder {
        None => {
            return Ok((branches, None));
        },
        Some(current) => current,
    };
    if fuel == 0 {
        return Ok((branches, Some(current)));
    }
    match rewrite_step_with_mode(
        config.definition,
        &current.pattern,
        counter,
        config.simplification(),
        config.solver,
        config.options.mode,
        config.options.assume_initial_defined,
    ) {
        RewriteResult::Finished(applied) => {
            let ghost expected = seq![applied@] + deep(branches@);
            let mut all: Vec<AppliedRule> = Vec::new();
            all.push(applied);
            let mut branches = branches;
            all.append(&mut branches);
            assert(deep(all@) =~= expected);
            Ok((all, None))
        },
        RewriteResult::Branch { branches: lower, remainder: lower_remainder, .. } => {
            let mut all = lower;
            let mut branches = branches;
            all.append(&mut branches);
            expand_stopped_branch_remainder(config, all, lower_remainder, counter, fuel - 1)
        },
        RewriteResult::Indeterminate { reason, .. } => match reason {
            IndeterminateReason::Simplification { error, .. } => Err(error),
            _ => Ok((branches, Some(current))),
        },
        RewriteResult::Stuck(_) => Ok((branches, Some(current))),
        RewriteResult::Trivial(_) => Ok((branches, None)),
        RewriteResult::Vacuous(_) => Ok((branches, None)),
    }
}

/// What comes of simplifying the outcomes of a step.
pub struct Simplifying {
    pub trace: Vec<TraceEntry>,
    pub effects: Vec<BuiltinEffect>,
    pub discarded: Vec<UncommittedObservation>,
    /// The outcomes whose constraints can hold.
    pub kept: Vec<AppliedRule>,
    /// The failure at which the simplification ended.
    pub failed: Option<SimplificationError>,
}

/// The view of [`Simplifying`].
pub struct SimplifyingV {
    pub trace: Seq<TraceEntryV>,
    pub effects: Seq<BuiltinEffectV>,
    pub discarded: Seq<UncommittedObservationV>,
    pub kept: Seq<AppliedRuleV>,
    pub failed: Option<SimplificationErrorV>,
}

impl View for Simplifying {
    type V = SimplifyingV;

    open spec fn view(&self) -> SimplifyingV {
        SimplifyingV {
            trace: deep(self.trace@),
            effects: deep(self.effects@),
            discarded: deep(self.discarded@),
            kept: deep(self.kept@),
            failed: self.failed.deep_view(),
        }
    }
}

/// What comes of simplifying one more outcome.
pub open spec fn outcome_taken<'a, K: Kernel, S: SmtSolver>(
    config: ExecutionConfig<'a, K, S>,
    depth: u64,
    applied: AppliedRuleV,
    details: PatternSimplificationV,
    so_far: SimplifyingV,
) -> SimplifyingV {
    let recorded = SimplifyingV {
        trace: with_simplifications(so_far.trace, depth, details.applied_rules, 0),
        effects: so_far.effects + details.effects,
        ..so_far
    };
    if !(conjunction_truth(details.pattern.constraints) is False) {
        SimplifyingV {
            kept: recorded.kept.push(AppliedRuleV { pattern: details.pattern, ..applied }),
            ..recorded
        }
    } else if config.spec_observes(applied.unique_id) {
        SimplifyingV {
            discarded: recorded.discarded.push(
                UncommittedObservationV {
                    id: transition_by(applied.unique_id, applied.pattern),
                    rule_label: applied.label,
                    effects: applied.effects,
                    reason: UncommittedReason::RolledBack,
                },
            ),
            ..recorded
        }
    } else {
        recorded
    }
}

/// What comes of simplifying the outcomes from `from` on, up to the first failure.
pub open spec fn outcomes_simplified<'a, K: Kernel, S: SmtSolver>(
    config: ExecutionConfig<'a, K, S>,
    depth: u64,
    branches: Seq<AppliedRuleV>,
    so_far: SimplifyingV,
    from: int,
) -> SimplifyingV
    decreases branches.len() - from,
{
    if from >= branches.len() {
        so_far
    } else {
        match result_tried(config, branches[from].pattern) {
            Err(error) => SimplifyingV { failed: Some(error), ..so_far },
            Ok(details) => outcomes_simplified(
                config,
                depth,
                branches,
                outcome_taken(config, depth, branches[from], details, so_far),
                from + 1,
            ),
        }
    }
}

#[verifier::spinoff_prover]
fn take_outcome<'a, K: Kernel, S: SmtSolver>(
    config: &ExecutionConfig<'a, K, S>,
    depth: u64,
    applied: &AppliedRule,
    details: PatternSimplification,
    so_far: Simplifying,
) -> (result: Simplifying)
    ensures
        result@ == outcome_taken(*config, depth, applied@, details@, so_far@),
{
    let Simplifying { mut trace, mut effects, mut discarded, mut kept, failed } = so_far;
    let PatternSimplification { pattern, applied_rules, effects: more_effects } = details;
    trace_simplifications(&mut trace, depth, &applied_rules);
    let mut more_effects = more_effects;
    effects.append(&mut more_effects);
    if !matches!(predicates_truth(&pattern.constraints), Truth::False) {
        let mut next = applied.duplicate();
        next.pattern = pattern;
        kept.push(next);
    } else if config.observes(&applied.unique_id) {
        discarded.push(
            UncommittedObservation {
                id: make_transition(&applied.unique_id, &applied.pattern),
                rule_label: applied.label.duplicate(),
                effects: applied.effects.duplicate(),
                reason: UncommittedReason::RolledBack,
            },
        );
    }
    Simplifying { trace, effects, discarded, kept, failed }
}

#[verifier::spinoff_prover]
fn simplify_outcomes<'a, K: Kernel, S: SmtSolver>(
    config: &ExecutionConfig<'a, K, S>,
    depth: u64,
    branches: &Vec<AppliedRule>,
    start: Simplifying,
) -> (result: Simplifying)
    ensures
        result@ == outcomes_simplified(*config, depth, deep(branches@), start@, 0),
{
    let mut so_far = start;
    let mut i: usize = 0;
    while i < branches.len()
        invariant
            i <= branches.len(),
            outcomes_simplified(*config, depth, deep(branches@), start@, 0) == outcomes_simplified(
                *config,
                depth,
                deep(branches@),
                so_far@,
                i as int,
            ),
        decreases branches.len() - i,
    {
        assert(deep(branches@)[i as int] == branches[i as int]@);
        match try_result(config, &branches[i].pattern) {
            Err(error) => {
                so_far.failed = Some(error);
                return so_far;
            },
            Ok(details) => {
                so_far = take_outcome(config, depth, &branches[i], details, so_far);
            },
        }
        i += 1;
    }
    so_far
}

/// What rules leave of a state, simplified: nothing where its constraints do not hold. The trace and
/// the effects go with it.
pub open spec fn remainder_simplified<'a, K: Kernel, S: SmtSolver>(
    config: ExecutionConfig<'a, K, S>,
    depth: u64,
    remainder: Option<RemainderBranchV>,
    so_far: SimplifyingV,
) -> (Option<RemainderBranchV>, SimplifyingV) {
    match remainder {
        None => (None, so_far),
        Some(remainder) => match result_tried(config, remainder.pattern) {
            Err(error) => (None, SimplifyingV { failed: Some(error), ..so_far }),
            Ok(details) => (
                if conjunction_truth(details.pattern.constraints) is False {
                    None
                } else {
                    Some(RemainderBranchV { pattern: details.pattern, ..remainder })
                },
                SimplifyingV {
                    trace: with_simplifications(so_far.trace, depth, details.applied_rules, 0),
                    effects: so_far.effects + details.effects,
                    ..so_far
                },
            ),
        },
    }
}

#[verifier::spinoff_prover]
fn simplify_remainder<'a, K: Kernel, S: SmtSolver>(
    config: &ExecutionConfig<'a, K, S>,
    depth: u64,
    remainder: Option<RemainderBranch>,
    so_far: Simplifying,
) -> (result: (Option<RemainderBranch>, Simplifying))
    ensures
        (result.0.deep_view(), result.1@) == remainder_simplified(
            *config,
            depth,
            remainder.deep_view(),
            so_far@,
        ),
{
    let mut so_far = so_far;
    match remainder {
        None => (None, so_far),
        Some(remainder) => match try_result(config, &remainder.pattern) {
            Err(error) => {
                so_far.failed = Some(error);
                (None, so_far)
            },
            Ok(details) => {
                let Simplifying { mut trace, mut effects, discarded, kept, failed } = so_far;
                let PatternSimplification { pattern, applied_rules, effects: more } = details;
                let mut more = more;
                trace_simplifications(&mut trace, depth, &applied_rules);
                effects.append(&mut more);
                let left = if matches!(predicates_truth(&pattern.constraints), Truth::False) {
                    None
                } else {
                    Some(RemainderBranch { pattern, rule_ids: remainder.rule_ids })
                };
                (left, Simplifying { trace, effects, discarded, kept, failed })
            },
        },
    }
}

/// What follows once the outcomes of a step at which the execution stops are known: they are
/// simplified, and a failure is recorded at the state that they come from.
pub open spec fn outcomes_tried<'a, K: Kernel, S: SmtSolver>(
    config: ExecutionConfig<'a, K, S>,
    progress: ProgressV,
    state: ExecutionStateV,
    original: PatternV,
    outcomes: OutcomesV,
) -> MachineV {
    let simple = outcomes_simplified(
        config,
        deeper(state.depth),
        outcomes.0,
        SimplifyingV {
            trace: state.trace,
            effects: progress.effects,
            discarded: progress.discarded,
            kept: Seq::empty(),
            failed: None,
        },
        0,
    );
    let (remainder, simple) = if simple.failed is Some {
        (None, simple)
    } else {
        remainder_simplified(config, state.depth, outcomes.1, simple)
    };
    let progress = ProgressV { effects: simple.effects, discarded: simple.discarded, ..progress };
    let state = ExecutionStateV { trace: simple.trace, ..state };
    match simple.failed {
        Some(error) => left_at(
            progress,
            (ExecutionStateV { pattern: original, ..state }).leaf(
                HaltReasonV::Simplification(error),
            ),
        ),
        None => MachineV {
            progress,
            phase: PhaseV::BranchPoint { state, original, branches: simple.kept, remainder },
        },
    }
}

#[verifier::spinoff_prover]
fn try_outcomes<'a, K: Kernel, S: SmtSolver>(
    config: &ExecutionConfig<'a, K, S>,
    progress: Progress,
    state: ExecutionState,
    original: Pattern,
    branches: &Vec<AppliedRule>,
    remainder: Option<RemainderBranch>,
) -> (machine: Machine)
    ensures
        machine@ == outcomes_tried(
            *config,
            progress@,
            state@,
            original@,
            (deep(branches@), remainder.deep_view()),
        ),
{
    let ExecutionState { pattern, depth, trace, path, is_initial_input } = state;
    let Progress { pending, leaves, effects, discarded, counter, inputs, completed, bottom } =
        progress;
    let simple = simplify_outcomes(
        config,
        next_depth(depth),
        branches,
        Simplifying { trace, effects, discarded, kept: Vec::new(), failed: None },
    );
    let (left, simple) = if simple.failed.is_some() {
        (None, simple)
    } else {
        simplify_remainder(config, depth, remainder, simple)
    };
    let Simplifying { trace: all_trace, effects: all_effects, discarded: all_discarded, kept, failed } =
        simple;
    let after = Progress {
        pending,
        leaves,
        effects: all_effects,
        discarded: all_discarded,
        counter,
        inputs,
        completed,
        bottom,
    };
    let next = ExecutionState { pattern, depth, trace: all_trace, path, is_initial_input };
    match failed {
        Some(error) => leave_at(
            after,
            next.leaf_with_pattern(original, HaltReason::Simplification(error)),
        ),
        None => Machine {
            progress: after,
            phase: Phase::BranchPoint { state: next, original, branches: kept, remainder: left },
        },
    }
}

/// What follows a step with several outcomes at which the execution stops.
pub open spec fn branch_stopped<'a, K: Kernel, S: SmtSolver>(
    config: ExecutionConfig<'a, K, S>,
    progress: ProgressV,
    state: ExecutionStateV,
    original: PatternV,
    branches: Seq<AppliedRuleV>,
    remainder: Option<RemainderBranchV>,
) -> MachineV {
    let (expanded, counter) = remainder_expanded(
        config,
        branches,
        remainder,
        progress.counter,
        EXPANSIONS as nat,
    );
    let progress = ProgressV { counter, ..progress };
    match expanded {
        Err(error) => left_at(progress, state.leaf(HaltReasonV::Simplification(error))),
        Ok(outcomes) => match result_tried(config, original) {
            Err(error) => left_at(
                progress,
                (ExecutionStateV { pattern: original, ..state }).leaf(
                    HaltReasonV::Simplification(error),
                ),
            ),
            Ok(details) => {
                let progress = with_effects(progress, details.effects);
                let state = result_recorded(config, state, original, details);
                if conjunction_truth(details.pattern.constraints) is False {
                    left_at(
                        progress,
                        (ExecutionStateV { pattern: details.pattern, ..state }).leaf(
                            HaltReasonV::Trivial,
                        ),
                    )
                } else {
                    outcomes_tried(config, progress, state, details.pattern, outcomes)
                }
            },
        },
    }
}

#[verifier::spinoff_prover]
fn stop_at_branch<'a, K: Kernel, S: SmtSolver>(
    config: &ExecutionConfig<'a, K, S>,
    progress: Progress,
    state: ExecutionState,
    original: Pattern,
    branches: Vec<AppliedRule>,
    remainder: Option<RemainderBranch>,
) -> (machine: Machine)
    ensures
        machine@ == branch_stopped(
            *config,
            progress@,
            state@,
            original@,
            deep(branches@),
            remainder.deep_view(),
        ),
{
    let mut after = progress;
    let mut counter: u64 = after.counter;
    let expanded = expand_stopped_branch_remainder(
        config,
        branches,
        remainder,
        &mut counter,
        EXPANSIONS,
    );
    after.counter = counter;
    let (all, left) = match expanded {
        Ok(outcomes) => outcomes,
        Err(error) => {
            return leave_at(after, state.leaf(HaltReason::Simplification(error)));
        },
    };
    let details = match try_result(config, &original) {
        Ok(details) => details,
        Err(error) => {
            return leave_at(
                after,
                state.leaf_with_pattern(original, HaltReason::Simplification(error)),
            );
        },
    };
    after.record_effects(&details.effects);
    let next = record_result(config, state, &original, &details);
    if matches!(predicates_truth(&details.pattern.constraints), Truth::False) {
        return leave_at(after, next.leaf_with_pattern(details.pattern, HaltReason::Trivial));
    }
    try_outcomes(config, after, next, details.pattern, &all, left)
}

/// What follows a rewrite step.
pub open spec fn rewrite_taken<'a, K: Kernel, S: SmtSolver>(
    config: ExecutionConfig<'a, K, S>,
    progress: ProgressV,
    state: ExecutionStateV,
    deferred: Option<PatternV>,
    result: RewriteResultV,
) -> MachineV {
    match result {
        RewriteResultV::Stuck(pattern) => match deferred {
            Some(vacuous) => left_at(
                progress,
                (ExecutionStateV { pattern: vacuous, ..state }).leaf(HaltReasonV::Vacuous),
            ),
            None => left_at(
                progress,
                (ExecutionStateV { pattern, ..state }).leaf(HaltReasonV::Stuck),
            ),
        },
        RewriteResultV::Trivial(pattern) => left_at(
            progress,
            (ExecutionStateV { pattern, ..state }).leaf(HaltReasonV::Trivial),
        ),
        RewriteResultV::Vacuous(pattern) => left_at(
            progress,
            (ExecutionStateV { pattern, ..state }).leaf(HaltReasonV::Vacuous),
        ),
        RewriteResultV::Indeterminate { pattern, reason } => left_at(
            progress,
            (ExecutionStateV { pattern, ..state }).leaf(
                match reason {
                    IndeterminateReasonV::Simplification { error, .. } => {
                        HaltReasonV::Simplification(error)
                    },
                    reason => HaltReasonV::Indeterminate(reason),
                },
            ),
        ),
        RewriteResultV::Finished(applied) => single_outcome(config, progress, state, applied),
        RewriteResultV::Branch { original, branches, remainder, .. } => {
            match config.options.branch_mode {
                ExecutionBranchMode::StopAtBranch => branch_stopped(
                    config,
                    progress,
                    state,
                    original,
                    branches,
                    remainder,
                ),
                ExecutionBranchMode::ExploreAll => outcomes_explored(
                    config,
                    progress,
                    state,
                    branches,
                    remainder,
                ),
            }
        },
    }
}

#[verifier::spinoff_prover]
fn take_rewrite<'a, K: Kernel, S: SmtSolver>(
    config: &ExecutionConfig<'a, K, S>,
    progress: Progress,
    state: ExecutionState,
    deferred: Option<Pattern>,
    result: RewriteResult,
) -> (machine: Machine)
    ensures
        machine@ == rewrite_taken(*config, progress@, state@, deferred.deep_view(), result@),
{
    match result {
        RewriteResult::Stuck(pattern) => match deferred {
            Some(vacuous) => leave_at(
                progress,
                state.leaf_with_pattern(vacuous, HaltReason::Vacuous),
            ),
            None => leave_at(progress, state.leaf_with_pattern(pattern, HaltReason::Stuck)),
        },
        RewriteResult::Trivial(pattern) => leave_at(
            progress,
            state.leaf_with_pattern(pattern, HaltReason::Trivial),
        ),
        RewriteResult::Vacuous(pattern) => leave_at(
            progress,
            state.leaf_with_pattern(pattern, HaltReason::Vacuous),
        ),
        RewriteResult::Indeterminate { pattern, reason } => {
            let halt_reason = match reason {
                IndeterminateReason::Simplification { error, .. } => {
                    HaltReason::Simplification(error)
                },
                reason => HaltReason::Indeterminate(reason),
            };
            leave_at(progress, state.leaf_with_pattern(pattern, halt_reason))
        },
        RewriteResult::Finished(applied) => take_single_outcome(config, progress, state, applied),
        RewriteResult::Branch { original, branches, remainder, .. } => {
            match config.options.branch_mode {
                ExecutionBranchMode::StopAtBranch => stop_at_branch(
                    config,
                    progress,
                    state,
                    original,
                    branches,
                    remainder,
                ),
                ExecutionBranchMode::ExploreAll => explore_outcomes(
                    config,
                    progress,
                    state,
                    &branches,
                    &remainder,
                ),
            }
        },
    }
}

/// What follows at a rule before which the execution stops.
pub open spec fn cut_point_taken(
    progress: ProgressV,
    state: ExecutionStateV,
    rule: Seq<char>,
    applied: AppliedRuleV,
) -> MachineV {
    if conjunction_truth(applied.pattern.constraints) is False {
        left_at(
            progress,
            (ExecutionStateV { pattern: applied.pattern, ..state }).leaf(HaltReasonV::Trivial),
        )
    } else {
        left_at(
            progress,
            state.leaf(HaltReasonV::CutPointRule { rule, next_states: seq![applied] }),
        )
    }
}

fn take_cut_point(
    progress: Progress,
    state: ExecutionState,
    rule: String,
    applied: AppliedRule,
) -> (machine: Machine)
    ensures
        machine@ == cut_point_taken(progress@, state@, rule@, applied@),
{
    if matches!(predicates_truth(&applied.pattern.constraints), Truth::False) {
        return leave_at(
            progress,
            state.leaf_with_pattern(applied.pattern, HaltReason::Trivial),
        );
    }
    let ghost expected = seq![applied@];
    let mut next_states: Vec<AppliedRule> = Vec::new();
    next_states.push(applied);
    assert(deep(next_states@) =~= expected);
    leave_at(progress, state.leaf(HaltReason::CutPointRule { rule, next_states }))
}

/// What follows behind a rule behind which the execution stops.
pub open spec fn terminal_taken(
    progress: ProgressV,
    state: ExecutionStateV,
    rule: Seq<char>,
) -> MachineV {
    left_at(
        progress,
        state.leaf(
            if conjunction_truth(state.pattern.constraints) is False {
                HaltReasonV::Trivial
            } else {
                HaltReasonV::TerminalRule { rule }
            },
        ),
    )
}

fn take_terminal(progress: Progress, state: ExecutionState, rule: String) -> (machine: Machine)
    ensures
        machine@ == terminal_taken(progress@, state@, rule@),
{
    let trivial = matches!(predicates_truth(&state.pattern.constraints), Truth::False);
    leave_at(
        progress,
        state.leaf(
            if trivial {
                HaltReason::Trivial
            } else {
                HaltReason::TerminalRule { rule }
            },
        ),
    )
}

/// `progress` with one state before those to be taken up.
pub open spec fn gone_on(progress: ProgressV, next: ExecutionStateV) -> MachineV {
    MachineV {
        progress: ProgressV { pending: seq![next] + progress.pending, ..progress },
        phase: PhaseV::Waiting,
    }
}

fn go_on(progress: Progress, next: ExecutionState) -> (machine: Machine)
    ensures
        machine@ == gone_on(progress@, next@),
{
    let ghost expected = seq![next@] + deep(progress.pending@);
    let mut progress = progress;
    let mut pending: Vec<ExecutionState> = Vec::new();
    pending.push(next);
    pending.append(&mut progress.pending);
    assert(deep(pending@) =~= expected);
    progress.pending = pending;
    Machine { progress, phase: Phase::Waiting }
}

/// What follows once the outcomes of a step are simplified: the execution stops where there are
/// still several, and goes on with one.
pub open spec fn branch_point_taken<'a, K: Kernel, S: SmtSolver>(
    config: ExecutionConfig<'a, K, S>,
    progress: ProgressV,
    state: ExecutionStateV,
    original: PatternV,
    branches: Seq<AppliedRuleV>,
    remainder: Option<RemainderBranchV>,
) -> MachineV {
    if branches.len() == 0 && remainder is None {
        left_at(
            progress,
            (ExecutionStateV { pattern: original, ..state }).leaf(HaltReasonV::Stuck),
        )
    } else if branches.len() == 1 && remainder is None {
        gone_on(
            with_effects(progress, branches[0].effects),
            state_after(config, state, branches[0]),
        )
    } else if branches.len() == 0 {
        gone_on(progress, state_left(config, state, remainder->0))
    } else {
        left_at(
            with_effects(progress, effects_of(branches, Seq::empty(), 0)),
            (ExecutionStateV { pattern: original, ..state }).leaf(
                HaltReasonV::Branch { branches, remainder },
            ),
        )
    }
}

#[verifier::spinoff_prover]
fn take_branch_point<'a, K: Kernel, S: SmtSolver>(
    config: &ExecutionConfig<'a, K, S>,
    progress: Progress,
    state: ExecutionState,
    original: Pattern,
    branches: Vec<AppliedRule>,
    remainder: Option<RemainderBranch>,
) -> (machine: Machine)
    ensures
        machine@ == branch_point_taken(
            *config,
            progress@,
            state@,
            original@,
            deep(branches@),
            remainder.deep_view(),
        ),
{
    let mut progress = progress;
    if branches.len() == 0 {
        return match remainder {
            None => leave_at(progress, state.leaf_with_pattern(original, HaltReason::Stuck)),
            Some(remainder) => {
                let next = remaining_state(config, &state, &remainder);
                go_on(progress, next)
            },
        };
    }
    if branches.len() == 1 && remainder.is_none() {
        assert(deep(branches@)[0] == branches[0]@);
        progress.record_effects(&branches[0].effects);
        let next = next_state(config, &state, &branches[0]);
        return go_on(progress, next);
    }
    progress.record_effects(&collect_effects(&branches));
    leave_at(
        progress,
        state.leaf_with_pattern(original, HaltReason::Branch { branches, remainder }),
    )
}

// ---------------------------------------------------------------------------------------------
// The machine
// ---------------------------------------------------------------------------------------------
/// The machine after the next piece of work.
#[verifier::opaque]
pub open spec fn advanced<'a, K: Kernel, S: SmtSolver>(
    config: ExecutionConfig<'a, K, S>,
    machine: MachineV,
) -> MachineV {
    let progress = machine.progress;
    match machine.phase {
        PhaseV::Waiting => taken_up(progress),
        PhaseV::Started(state) => constraints_tried(config, progress, state),
        PhaseV::Constrained { state, retained, outcome } => constraints_taken(
            config,
            progress,
            state,
            retained,
            outcome,
        ),
        PhaseV::Simplified { state, deferred, outcome } => term_taken(
            config,
            progress,
            state,
            deferred,
            outcome,
        ),
        PhaseV::Rewritten { state, deferred, result } => rewrite_taken(
            config,
            progress,
            state,
            deferred,
            result,
        ),
        PhaseV::CutPoint { state, rule, applied } => cut_point_taken(
            progress,
            state,
            rule,
            applied,
        ),
        PhaseV::Terminal { state, rule } => terminal_taken(progress, state, rule),
        PhaseV::BranchPoint { state, original, branches, remainder } => branch_point_taken(
            config,
            progress,
            state,
            original,
            branches,
            remainder,
        ),
        PhaseV::Finished => machine,
    }
}

/// What interrupts an execution.
#[derive(Clone, Copy, Debug, PartialEq, Eq, Structural)]
pub enum Interruption {
    Cancelled,
    TimedOut(StepTimeoutMode),
}

/// The reason to halt for an interruption.
pub open spec fn halted_by(interruption: Interruption) -> HaltReasonV {
    match interruption {
        Interruption::Cancelled => HaltReasonV::Cancelled,
        Interruption::TimedOut(mode) => HaltReasonV::Timeout(mode),
    }
}

/// The state at hand.
pub open spec fn current_state(phase: PhaseV) -> Option<ExecutionStateV> {
    match phase {
        PhaseV::Waiting | PhaseV::Finished => None,
        PhaseV::Started(state) => Some(state),
        PhaseV::Constrained { state, .. } => Some(state),
        PhaseV::Simplified { state, .. } => Some(state),
        PhaseV::Rewritten { state, .. } => Some(state),
        PhaseV::CutPoint { state, .. } => Some(state),
        PhaseV::Terminal { state, .. } => Some(state),
        PhaseV::BranchPoint { state, .. } => Some(state),
    }
}

/// The machine after an interruption: the work on the state at hand is dropped, and the state is a
/// leaf.
pub open spec fn interrupted(machine: MachineV, interruption: Interruption) -> MachineV {
    match current_state(machine.phase) {
        Some(state) => left_at(machine.progress, state.leaf(halted_by(interruption))),
        None => machine,
    }
}

/// The machine for `initial`.
pub open spec fn machine_for<'a, K: Kernel, S: SmtSolver>(
    config: ExecutionConfig<'a, K, S>,
    initial: Seq<PatternV>,
) -> MachineV {
    let pending = initial_states(initial, Seq::empty(), 0);
    let progress = ProgressV {
        pending,
        leaves: SelectedExecutionLeavesV::empty(),
        effects: Seq::empty(),
        discarded: Seq::empty(),
        counter: 0,
        inputs: initial.len() as usize,
        completed: 0,
        bottom: 0,
    };
    if config.options.max_breadth == Some(0usize) {
        MachineV {
            progress: ProgressV {
                pending: Seq::empty(),
                leaves: SelectedExecutionLeavesV {
                    retained: at_breadth_bound(pending, Seq::empty(), 0),
                    got_stuck: false,
                },
                ..progress
            },
            phase: PhaseV::Finished,
        }
    } else {
        MachineV { progress, phase: PhaseV::Waiting }
    }
}

/// The inputs from `from` on as states, behind `found`.
pub open spec fn initial_states(
    initial: Seq<PatternV>,
    found: Seq<ExecutionStateV>,
    from: int,
) -> Seq<ExecutionStateV>
    decreases initial.len() - from,
{
    if from >= initial.len() {
        found
    } else {
        initial_states(
            initial,
            found.push(
                ExecutionStateV {
                    pattern: initial[from],
                    depth: 0,
                    trace: Seq::empty(),
                    path: ObservationPathV { branch: Seq::empty(), events: Seq::empty() },
                    is_initial_input: true,
                },
            ),
            from + 1,
        )
    }
}

/// What an execution has found.
pub open spec fn result_of(progress: ProgressV) -> ExecutionResultV {
    ExecutionResultV {
        leaves: merged(selected(progress.leaves.retained)),
        effects: progress.effects,
        discarded: progress.discarded,
    }
}

/// How the simplification of the inputs came out.
pub open spec fn status_of(progress: ProgressV) -> bool {
    progress.inputs != 0 && progress.completed == progress.inputs && progress.bottom
        == progress.inputs
}

impl Machine {
    /// Start the execution of `initial`.
    pub fn new<'a, K: Kernel, S: SmtSolver>(
        config: &ExecutionConfig<'a, K, S>,
        initial: Vec<Pattern>,
    ) -> (machine: Self)
        ensures
            machine@ == machine_for(*config, deep(initial@)),
    {
        let mut pending: Vec<ExecutionState> = Vec::new();
        let mut i: usize = 0;
        while i < initial.len()
            invariant
                i <= initial.len(),
                initial_states(deep(initial@), Seq::empty(), 0) == initial_states(
                    deep(initial@),
                    deep(pending@),
                    i as int,
                ),
            decreases initial.len() - i,
        {
            assert(deep(initial@)[i as int] == initial[i as int]@);
            pending.push(
                ExecutionState {
                    pattern: initial[i].duplicate(),
                    depth: 0,
                    trace: Vec::new(),
                    path: ObservationPath { branch: Vec::new(), events: Vec::new() },
                    is_initial_input: true,
                },
            );
            i += 1;
        }
        let mut progress = Progress {
            pending: Vec::new(),
            leaves: SelectedExecutionLeaves::default(),
            effects: Vec::new(),
            discarded: Vec::new(),
            counter: 0,
            inputs: initial.len(),
            completed: 0,
            bottom: 0,
        };
        if let Some(0) = config.options.max_breadth {
            progress.leaves.replace_unselected(stop_at_breadth_bound(&pending));
            return Machine { progress, phase: Phase::Finished };
        }
        progress.pending = pending;
        Machine { progress, phase: Phase::Waiting }
    }

    /// Do the next piece of work.
    #[verifier::spinoff_prover]
    pub fn advance<'a, K: Kernel, S: SmtSolver>(self, config: &ExecutionConfig<'a, K, S>) -> (next:
        Self)
        ensures
            next@ == advanced(*config, self@),
    {
        reveal(advanced);
        let Machine { progress, phase } = self;
        match phase {
            Phase::Waiting => take_up(progress),
            Phase::Started(state) => try_constraints(config, progress, state),
            Phase::Constrained { state, retained, outcome } => take_constraints(
                config,
                progress,
                state,
                retained,
                outcome,
            ),
            Phase::Simplified { state, deferred, outcome } => take_term(
                config,
                progress,
                state,
                deferred,
                outcome,
            ),
            Phase::Rewritten { state, deferred, result } => take_rewrite(
                config,
                progress,
                state,
                deferred,
                result,
            ),
            Phase::CutPoint { state, rule, applied } => take_cut_point(
                progress,
                state,
                rule,
                applied,
            ),
            Phase::Terminal { state, rule } => take_terminal(progress, state, rule),
            Phase::BranchPoint { state, original, branches, remainder } => take_branch_point(
                config,
                progress,
                state,
                original,
                branches,
                remainder,
            ),
            Phase::Finished => Machine { progress, phase: Phase::Finished },
        }
    }

    /// Interrupt the work on the state at hand.
    pub fn interrupt(self, interruption: Interruption) -> (next: Self)
        ensures
            next@ == interrupted(self@, interruption),
    {
        let Machine { progress, phase } = self;
        let reason = match interruption {
            Interruption::Cancelled => HaltReason::Cancelled,
            Interruption::TimedOut(mode) => HaltReason::Timeout(mode),
        };
        match phase {
            Phase::Waiting => Machine { progress, phase: Phase::Waiting },
            Phase::Finished => Machine { progress, phase: Phase::Finished },
            Phase::Started(state) => leave_at(progress, state.leaf(reason)),
            Phase::Constrained { state, .. } => leave_at(progress, state.leaf(reason)),
            Phase::Simplified { state, .. } => leave_at(progress, state.leaf(reason)),
            Phase::Rewritten { state, .. } => leave_at(progress, state.leaf(reason)),
            Phase::CutPoint { state, .. } => leave_at(progress, state.leaf(reason)),
            Phase::Terminal { state, .. } => leave_at(progress, state.leaf(reason)),
            Phase::BranchPoint { state, .. } => leave_at(progress, state.leaf(reason)),
        }
    }

    /// Whether there is nothing left to do.
    pub fn is_finished(&self) -> (result: bool)
        ensures
            result == (self@.phase is Finished),
    {
        matches!(self.phase, Phase::Finished)
    }

    /// Whether the next piece of work is to take up a state.
    pub fn is_waiting(&self) -> (result: bool)
        ensures
            result == (self@.phase is Waiting),
    {
        matches!(self.phase, Phase::Waiting)
    }

    /// What the execution has found.
    pub fn into_result(self) -> (result: (ExecutionResult, InitialSimplificationStatus))
        ensures
            result.0@ == result_of(self@.progress),
            result.1.bottom == status_of(self@.progress),
    {
        let Progress { leaves, effects, discarded, inputs, completed, bottom, .. } = self.progress;
        let status = InitialSimplificationStatus {
            bottom: inputs != 0 && completed == inputs && bottom == inputs,
        };
        let leaves = merge_equal_final_leaves(
            select_got_stuck_over_depth_bound(leaves.into_inner()),
        );
        (ExecutionResult { leaves, effects, discarded }, status)
    }
}

/// The machine after at most `fuel` pieces of work.
pub open spec fn run<'a, K: Kernel, S: SmtSolver>(
    config: ExecutionConfig<'a, K, S>,
    machine: MachineV,
    fuel: nat,
) -> MachineV
    decreases fuel,
{
    if fuel == 0 || machine.phase is Finished {
        machine
    } else {
        run(config, advanced(config, machine), (fuel - 1) as nat)
    }
}

/// How many pieces of work an execution may do: no machine does so many.
pub const WORK: usize = usize::MAX;

/// What the execution of `initial` gives.
pub open spec fn executed<'a, K: Kernel, S: SmtSolver>(
    config: ExecutionConfig<'a, K, S>,
    initial: Seq<PatternV>,
) -> ProgressV {
    run(config, machine_for(config, initial), WORK as nat).progress
}

fn execute_using<'a, K: Kernel, S: SmtSolver>(
    config: &ExecutionConfig<'a, K, S>,
    initial: Vec<Pattern>,
) -> (result: (ExecutionResult, InitialSimplificationStatus))
    ensures
        result.0@ == result_of(executed(*config, deep(initial@))),
        result.1.bottom == status_of(executed(*config, deep(initial@))),
{
    let mut machine = Machine::new(config, initial);
    let mut fuel: usize = WORK;
    while fuel > 0 && !machine.is_finished()
        invariant
            run(*config, machine_for(*config, deep(initial@)), WORK as nat) == run(
                *config,
                machine@,
                fuel as nat,
            ),
        decreases fuel,
    {
        machine = machine.advance(config);
        fuel -= 1;
    }
    machine.into_result()
}

/// Execute without a solver.
pub fn execute<K: Kernel>(
    definition: &BackendDefinition<K>,
    initial: Pattern,
    options: &ExecutionOptions,
) -> (result: ExecutionResult)
    ensures
        result@ == result_of(
            executed(
                ExecutionConfig { definition, solver: &NoSolver, options, observation: None },
                seq![initial@],
            ),
        ),
{
    execute_with_solver(definition, initial, options, &NoSolver)
}

/// Execute with a solver.
pub fn execute_with_solver<K: Kernel, S: SmtSolver>(
    definition: &BackendDefinition<K>,
    initial: Pattern,
    options: &ExecutionOptions,
    solver: &S,
) -> (result: ExecutionResult)
    ensures
        result@ == result_of(
            executed(
                ExecutionConfig { definition, solver, options, observation: None },
                seq![initial@],
            ),
        ),
{
    let mut observer: Vec<BuiltinEffect> = Vec::new();
    execute_with_solver_and_observer(definition, initial, options, solver, &mut observer)
}

/// Execute without a solver, and observe the transitions of every branch.
pub fn execute_observed<K: Kernel>(
    definition: &BackendDefinition<K>,
    initial: Pattern,
    options: &ExecutionOptions,
    observation: &ObservationOptions,
) -> (result: ExecutionResult)
    ensures
        result@ == result_of(
            executed(
                ExecutionConfig {
                    definition,
                    solver: &NoSolver,
                    options,
                    observation: Some(observation),
                },
                seq![initial@],
            ),
        ),
{
    execute_observed_with_solver(definition, initial, options, &NoSolver, observation)
}

/// Execute with a solver, and observe the transitions of every branch.
pub fn execute_observed_with_solver<K: Kernel, S: SmtSolver>(
    definition: &BackendDefinition<K>,
    initial: Pattern,
    options: &ExecutionOptions,
    solver: &S,
    observation: &ObservationOptions,
) -> (result: ExecutionResult)
    ensures
        result@ == result_of(
            executed(
                ExecutionConfig { definition, solver, options, observation: Some(observation) },
                seq![initial@],
            ),
        ),
{
    let config = ExecutionConfig { definition, solver, options, observation: Some(observation) };
    let inputs = one_input(initial);
    execute_using(&config, inputs).0
}

fn one_input(initial: Pattern) -> (inputs: Vec<Pattern>)
    ensures
        deep(inputs@) == seq![initial@],
{
    let mut inputs: Vec<Pattern> = Vec::new();
    inputs.push(initial);
    assert(deep(inputs@) =~= seq![initial@]);
    inputs
}

/// Execute with a solver. The observer gets the effects of builtin functions, in their order.
pub fn execute_with_solver_and_observer<K: Kernel, S: SmtSolver>(
    definition: &BackendDefinition<K>,
    initial: Pattern,
    options: &ExecutionOptions,
    solver: &S,
    observer: &mut Vec<BuiltinEffect>,
) -> (result: ExecutionResult)
    ensures
        result@ == result_of(
            executed(
                ExecutionConfig { definition, solver, options, observation: None },
                seq![initial@],
            ),
        ),
        deep(final(observer)@) == deep(old(observer)@) + result@.effects,
{
    let inputs = one_input(initial);
    execute_disjunction_with_solver_and_observer(definition, inputs, options, solver, observer)
}

/// Execute several inputs.
pub fn execute_disjunction_with_solver_and_observer<K: Kernel, S: SmtSolver>(
    definition: &BackendDefinition<K>,
    initial: Vec<Pattern>,
    options: &ExecutionOptions,
    solver: &S,
    observer: &mut Vec<BuiltinEffect>,
) -> (result: ExecutionResult)
    ensures
        result@ == result_of(
            executed(
                ExecutionConfig { definition, solver, options, observation: None },
                deep(initial@),
            ),
        ),
        deep(final(observer)@) == deep(old(observer)@) + result@.effects,
{
    execute_disjunction_with_solver_and_observer_with_initial_status(
        definition,
        initial,
        options,
        solver,
        observer,
    ).0
}

/// Execute several inputs, and report how their simplification came out.
pub fn execute_disjunction_with_solver_and_observer_with_initial_status<K: Kernel, S: SmtSolver>(
    definition: &BackendDefinition<K>,
    initial: Vec<Pattern>,
    options: &ExecutionOptions,
    solver: &S,
    observer: &mut Vec<BuiltinEffect>,
) -> (result: (ExecutionResult, InitialSimplificationStatus))
    ensures
        ({
            let progress = executed(
                ExecutionConfig { definition, solver, options, observation: None },
                deep(initial@),
            );
            result.0@ == result_of(progress) && result.1.bottom == status_of(progress)
        }),
        deep(final(observer)@) == deep(old(observer)@) + result.0@.effects,
{
    let config = ExecutionConfig { definition, solver, options, observation: None };
    let result = execute_using(&config, initial);
    let mut effects = result.0.effects.duplicate();
    observer.append(&mut effects);
    result
}

} // verus!
