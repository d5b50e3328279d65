//! What every execution keeps.

use vstd::prelude::*;
use crate::execution::{
    advanced, branch_point_taken, branch_stopped, constraints_taken, effects_of, enqueued, executed,
    gone_on, initial_states, left_at, machine_for, outcome_taken, outcomes_simplified,
    outcomes_tried, pattern_constrained, remainder_expanded, remainder_simplified, result_of,
    result_recorded, result_tried, rewrite_taken, run, single_outcome, state_simplified,
    states_after, term_taken, with_completed, with_effects, EXPANSIONS, MachineV, OutcomesV, PhaseV,
    ProgressV, SimplifyingV, WORK,
};
use crate::execution_parts::{
    application_observed, at_breadth_bound, deeper, lemma_steps_push, lemma_steps_simplified,
    rewrite_steps, state_after, state_left, ExecutionConfig,
};
use crate::execution_types::{
    ExecutionBranchMode, ExecutionLeafV, ExecutionStateV, HaltReasonV, ObservationPathV,
    TraceEntryV,
};
use crate::kernel::Kernel;
use crate::leaves::{
    configuration_of, law_merged_without_repeats, merged_from, none_repeats, selected, within_depth,
};
use crate::model::group_deep;
use crate::pattern::PatternV;
use crate::rewrite_types::{AppliedRuleV, IndeterminateReasonV, RemainderBranchV, RewriteResultV};
use crate::simplify_types::{PatternSimplificationV, SimplificationErrorV, SimplificationV};
use crate::solver::SmtSolver;
use crate::substitution::SubstitutionV;
use crate::predicate::PredicateV;
use crate::truth::conjunction_truth;
use crate::term::TermV;

verus! {

broadcast use group_deep;

/// Whether a depth is the number of rewrite steps of a trace, and within the bound.
pub open spec fn is_depth_of(trace: Seq<TraceEntryV>, depth: u64, max_depth: u64) -> bool {
    rewrite_steps(trace, trace.len() as int) == depth && depth <= max_depth
}

/// Whether a state is reached as its trace says.
pub open spec fn state_is_reached(max_depth: u64, state: ExecutionStateV) -> bool {
    is_depth_of(state.trace, state.depth, max_depth)
}

/// Whether a leaf is reached as its trace says.
pub open spec fn leaf_is_reached(max_depth: u64, leaf: ExecutionLeafV) -> bool {
    is_depth_of(leaf.trace, leaf.depth, max_depth)
}

/// Whether all states are reached as their traces say.
pub open spec fn states_are_reached(max_depth: u64, states: Seq<ExecutionStateV>) -> bool {
    forall|i: int| 0 <= i < states.len() ==> state_is_reached(max_depth, #[trigger] states[i])
}

/// Whether all leaves are reached as their traces say.
pub open spec fn leaves_are_reached(max_depth: u64, leaves: Seq<ExecutionLeafV>) -> bool {
    forall|i: int| 0 <= i < leaves.len() ==> leaf_is_reached(max_depth, #[trigger] leaves[i])
}

/// Whether the state at hand is reached as its trace says, and may be rewritten where it was.
pub open spec fn phase_is_reached(max_depth: u64, phase: PhaseV) -> bool {
    match phase {
        PhaseV::Waiting => true,
        PhaseV::Finished => true,
        PhaseV::Started(state) => state_is_reached(max_depth, state),
        PhaseV::Constrained { state, .. } => state_is_reached(max_depth, state),
        PhaseV::Simplified { state, .. } => state_is_reached(max_depth, state),
        PhaseV::Rewritten { state, .. } => state_is_reached(max_depth, state) && state.depth
            < max_depth,
        PhaseV::CutPoint { state, .. } => state_is_reached(max_depth, state),
        PhaseV::Terminal { state, .. } => state_is_reached(max_depth, state),
        PhaseV::BranchPoint { state, .. } => state_is_reached(max_depth, state) && state.depth
            < max_depth,
    }
}

/// What every execution keeps.
pub open spec fn progress_is_reached(max_depth: u64, progress: ProgressV) -> bool {
    states_are_reached(max_depth, progress.pending) && leaves_are_reached(
        max_depth,
        progress.leaves.retained,
    )
}

/// What every execution keeps.
pub open spec fn machine_is_reached(max_depth: u64, machine: MachineV) -> bool {
    progress_is_reached(max_depth, machine.progress) && phase_is_reached(max_depth, machine.phase)
}

proof fn lemma_within_depth(max_depth: u64, leaves: Seq<ExecutionLeafV>, count: int)
    requires
        0 <= count <= leaves.len(),
        leaves_are_reached(max_depth, leaves),
    ensures
        leaves_are_reached(max_depth, within_depth(leaves, count)),
    decreases count,
{
    if count > 0 {
        lemma_within_depth(max_depth, leaves, count - 1);
        assert(leaf_is_reached(max_depth, leaves[count - 1]));
    }
}

proof fn lemma_left_at(max_depth: u64, progress: ProgressV, leaf: ExecutionLeafV)
    requires
        progress_is_reached(max_depth, progress),
        leaf_is_reached(max_depth, leaf),
    ensures
        machine_is_reached(max_depth, left_at(progress, leaf)),
{
    lemma_within_depth(
        max_depth,
        progress.leaves.retained,
        progress.leaves.retained.len() as int,
    );
}

proof fn lemma_at_breadth_bound(
    max_depth: u64,
    states: Seq<ExecutionStateV>,
    found: Seq<ExecutionLeafV>,
    from: int,
)
    requires
        0 <= from,
        states_are_reached(max_depth, states),
        leaves_are_reached(max_depth, found),
    ensures
        leaves_are_reached(max_depth, at_breadth_bound(states, found, from)),
    decreases states.len() - from,
{
    if from < states.len() {
        assert(state_is_reached(max_depth, states[from]));
        let leaf = states[from].leaf(HaltReasonV::BreadthBound);
        lemma_at_breadth_bound(max_depth, states, found.push(leaf), from + 1);
    }
}

proof fn lemma_enqueued<'a, K: Kernel, S: SmtSolver>(
    config: ExecutionConfig<'a, K, S>,
    progress: ProgressV,
    next: Seq<ExecutionStateV>,
)
    requires
        progress_is_reached(config.options.max_depth, progress),
        states_are_reached(config.options.max_depth, next),
    ensures
        machine_is_reached(config.options.max_depth, enqueued(config, progress, next)),
{
    let max_depth = config.options.max_depth;
    let pending = next + progress.pending;
    assert forall|i: int| 0 <= i < pending.len() implies state_is_reached(
        max_depth,
        #[trigger] pending[i],
    ) by {
        if i < next.len() {
            assert(pending[i] == next[i]);
        } else {
            assert(pending[i] == progress.pending[i - next.len()]);
        }
    }
    lemma_at_breadth_bound(max_depth, pending, Seq::empty(), 0);
}

proof fn lemma_state_after<'a, K: Kernel, S: SmtSolver>(
    config: ExecutionConfig<'a, K, S>,
    state: ExecutionStateV,
    applied: AppliedRuleV,
)
    requires
        state_is_reached(config.options.max_depth, state),
        state.depth < config.options.max_depth,
    ensures
        state_is_reached(config.options.max_depth, state_after(config, state, applied)),
{
    let next = state_after(config, state, applied);
    lemma_steps_push(state.trace, next.trace.last(), state.trace.len() as int);
    assert(next.trace == state.trace.push(next.trace.last()));
}

proof fn lemma_state_left<'a, K: Kernel, S: SmtSolver>(
    config: ExecutionConfig<'a, K, S>,
    state: ExecutionStateV,
    remainder: RemainderBranchV,
)
    requires
        state_is_reached(config.options.max_depth, state),
    ensures
        state_is_reached(config.options.max_depth, state_left(config, state, remainder)),
{
    let next = state_left(config, state, remainder);
    lemma_steps_push(state.trace, next.trace.last(), state.trace.len() as int);
    assert(next.trace == state.trace.push(next.trace.last()));
}

proof fn lemma_states_after<'a, K: Kernel, S: SmtSolver>(
    config: ExecutionConfig<'a, K, S>,
    state: ExecutionStateV,
    branches: Seq<AppliedRuleV>,
    found: Seq<ExecutionStateV>,
    from: int,
)
    requires
        state_is_reached(config.options.max_depth, state),
        state.depth < config.options.max_depth,
        states_are_reached(config.options.max_depth, found),
    ensures
        states_are_reached(
            config.options.max_depth,
            states_after(config, state, branches, found, from),
        ),
    decreases branches.len() - from,
{
    if from < branches.len() {
        lemma_state_after(config, state, branches[from]);
        lemma_states_after(
            config,
            state,
            branches,
            found.push(state_after(config, state, branches[from])),
            from + 1,
        );
    }
}

proof fn lemma_recorded<'a, K: Kernel, S: SmtSolver>(
    config: ExecutionConfig<'a, K, S>,
    state: ExecutionStateV,
    before: PatternV,
    details: PatternSimplificationV,
)
    requires
        state_is_reached(config.options.max_depth, state),
    ensures
        state_is_reached(
            config.options.max_depth,
            result_recorded(config, state, before, details),
        ),
{
    lemma_steps_simplified(state.trace, state.depth, details.applied_rules, 0);
}

proof fn lemma_outcomes_simplified<'a, K: Kernel, S: SmtSolver>(
    config: ExecutionConfig<'a, K, S>,
    depth: u64,
    branches: Seq<AppliedRuleV>,
    so_far: SimplifyingV,
    from: int,
)
    ensures
        ({
            let after = outcomes_simplified(config, depth, branches, so_far, from);
            rewrite_steps(after.trace, after.trace.len() as int) == rewrite_steps(
                so_far.trace,
                so_far.trace.len() as int,
            )
        }),
    decreases branches.len() - from,
{
    if from < branches.len() {
        match result_tried(config, branches[from].pattern) {
            Err(_) => {},
            Ok(details) => {
                lemma_steps_simplified(so_far.trace, depth, details.applied_rules, 0);
                lemma_outcomes_simplified(
                    config,
                    depth,
                    branches,
                    outcome_taken(
                        config,
                        depth,
                        branches[from],
                        details,
                        so_far,
                    ),
                    from + 1,
                );
            },
        }
    }
}

proof fn lemma_outcomes_tried<'a, K: Kernel, S: SmtSolver>(
    config: ExecutionConfig<'a, K, S>,
    progress: ProgressV,
    state: ExecutionStateV,
    original: PatternV,
    outcomes: OutcomesV,
)
    requires
        progress_is_reached(config.options.max_depth, progress),
        state_is_reached(config.options.max_depth, state),
        state.depth < config.options.max_depth,
    ensures
        machine_is_reached(
            config.options.max_depth,
            outcomes_tried(config, progress, state, original, outcomes),
        ),
{
    let start = SimplifyingV {
        trace: state.trace,
        effects: progress.effects,
        discarded: progress.discarded,
        kept: Seq::empty(),
        failed: None,
    };
    let depth = deeper(state.depth);
    let first = outcomes_simplified(config, depth, outcomes.0, start, 0);
    lemma_outcomes_simplified(config, depth, outcomes.0, start, 0);
    match outcomes.1 {
        Some(remainder) => {
            match result_tried(config, remainder.pattern) {
                Ok(details) => {
                    lemma_steps_simplified(first.trace, state.depth, details.applied_rules, 0);
                },
                Err(_) => {},
            }
        },
        None => {},
    }
    let (remainder, simple) = if first.failed is Some {
        (None, first)
    } else {
        remainder_simplified(config, state.depth, outcomes.1, first)
    };
    let progress = ProgressV { effects: simple.effects, discarded: simple.discarded, ..progress };
    let state = ExecutionStateV { trace: simple.trace, ..state };
    match simple.failed {
        Some(error) => {
            lemma_left_at(
                config.options.max_depth,
                progress,
                (ExecutionStateV { pattern: original, ..state }).leaf(
                    HaltReasonV::Simplification(error),
                ),
            );
        },
        None => {},
    }
}

proof fn lemma_branch_stopped<'a, K: Kernel, S: SmtSolver>(
    config: ExecutionConfig<'a, K, S>,
    progress: ProgressV,
    state: ExecutionStateV,
    original: PatternV,
    branches: Seq<AppliedRuleV>,
    remainder: Option<RemainderBranchV>,
)
    requires
        progress_is_reached(config.options.max_depth, progress),
        state_is_reached(config.options.max_depth, state),
        state.depth < config.options.max_depth,
    ensures
        machine_is_reached(
            config.options.max_depth,
            branch_stopped(config, progress, state, original, branches, remainder),
        ),
{
    let max_depth = config.options.max_depth;
    let (expanded, counter) = remainder_expanded(
        config,
        branches,
        remainder,
        progress.counter,
        EXPANSIONS as nat,
    );
    let progress = ProgressV { counter, ..progress };
    match expanded {
        Err(error) => {
            lemma_left_at(max_depth, progress, state.leaf(HaltReasonV::Simplification(error)));
        },
        Ok(outcomes) => match result_tried(config, original) {
            Err(error) => {
                lemma_left_at(
                    max_depth,
                    progress,
                    (ExecutionStateV { pattern: original, ..state }).leaf(
                        HaltReasonV::Simplification(error),
                    ),
                );
            },
            Ok(details) => {
                lemma_recorded(config, state, original, details);
                let progress = with_effects(progress, details.effects);
                let state = result_recorded(config, state, original, details);
                lemma_left_at(
                    max_depth,
                    progress,
                    (ExecutionStateV { pattern: details.pattern, ..state }).leaf(
                        HaltReasonV::Trivial,
                    ),
                );
                lemma_outcomes_tried(config, progress, state, details.pattern, outcomes);
            },
        },
    }
}

proof fn lemma_single_outcome<'a, K: Kernel, S: SmtSolver>(
    config: ExecutionConfig<'a, K, S>,
    progress: ProgressV,
    state: ExecutionStateV,
    applied: AppliedRuleV,
)
    requires
        progress_is_reached(config.options.max_depth, progress),
        state_is_reached(config.options.max_depth, state),
        state.depth < config.options.max_depth,
    ensures
        machine_is_reached(
            config.options.max_depth,
            single_outcome(config, progress, state, applied),
        ),
{
    let max_depth = config.options.max_depth;
    let progress = with_effects(progress, applied.effects);
    let observed = ExecutionStateV {
        path: application_observed(config, state.path, applied),
        ..state
    };
    match result_tried(config, applied.pattern) {
        Err(error) => {
            lemma_left_at(
                max_depth,
                progress,
                (ExecutionStateV { pattern: applied.pattern, ..observed }).leaf(
                    HaltReasonV::Simplification(error),
                ),
            );
        },
        Ok(details) => {
            lemma_recorded(config, observed, applied.pattern, details);
        },
    }
    lemma_state_after(config, state, applied);
    let next = state_after(config, state, applied);
    match result_tried(config, next.pattern) {
        Err(error) => {
            lemma_left_at(max_depth, progress, next.leaf(HaltReasonV::Simplification(error)));
        },
        Ok(details) => {
            lemma_recorded(config, next, next.pattern, details);
        },
    }
    lemma_enqueued(config, progress, seq![next]);
}

proof fn lemma_rewrite_taken<'a, K: Kernel, S: SmtSolver>(
    config: ExecutionConfig<'a, K, S>,
    progress: ProgressV,
    state: ExecutionStateV,
    deferred: Option<PatternV>,
    result: RewriteResultV,
)
    requires
        progress_is_reached(config.options.max_depth, progress),
        state_is_reached(config.options.max_depth, state),
        state.depth < config.options.max_depth,
    ensures
        machine_is_reached(
            config.options.max_depth,
            rewrite_taken(config, progress, state, deferred, result),
        ),
{
    let max_depth = config.options.max_depth;
    match result {
        RewriteResultV::Finished(applied) => {
            lemma_single_outcome(config, progress, state, applied);
        },
        RewriteResultV::Branch { original, branches, remainder, .. } => {
            match config.options.branch_mode {
                ExecutionBranchMode::StopAtBranch => {
                    lemma_branch_stopped(config, progress, state, original, branches, remainder);
                },
                ExecutionBranchMode::ExploreAll => {
                    lemma_states_after(config, state, branches, Seq::empty(), 0);
                    let after = states_after(config, state, branches, Seq::empty(), 0);
                    let next = match remainder {
                        Some(remainder) => {
                            lemma_state_left(config, state, remainder);
                            after.push(state_left(config, state, remainder))
                        },
                        None => after,
                    };
                    lemma_enqueued(
                        config,
                        with_effects(
                            progress,
                            effects_of(branches, Seq::empty(), 0),
                        ),
                        next,
                    );
                },
            }
        },
        RewriteResultV::Stuck(pattern) => {
            lemma_left_at(
                max_depth,
                progress,
                (ExecutionStateV { pattern, ..state }).leaf(HaltReasonV::Stuck),
            );
            match deferred {
                Some(vacuous) => {
                    lemma_left_at(
                        max_depth,
                        progress,
                        (ExecutionStateV { pattern: vacuous, ..state }).leaf(
                            HaltReasonV::Vacuous,
                        ),
                    );
                },
                None => {},
            }
        },
        _ => {
            lemma_any_leaf(config, progress, state, deferred, result);
        },
    }
}

proof fn lemma_any_leaf<'a, K: Kernel, S: SmtSolver>(
    config: ExecutionConfig<'a, K, S>,
    progress: ProgressV,
    state: ExecutionStateV,
    deferred: Option<PatternV>,
    result: RewriteResultV,
)
    requires
        progress_is_reached(config.options.max_depth, progress),
        state_is_reached(config.options.max_depth, state),
        result is Trivial || result is Vacuous || result is Indeterminate,
    ensures
        machine_is_reached(
            config.options.max_depth,
            rewrite_taken(config, progress, state, deferred, result),
        ),
{
    let pattern = match result {
        RewriteResultV::Trivial(pattern) => pattern,
        RewriteResultV::Vacuous(pattern) => pattern,
        RewriteResultV::Indeterminate { pattern, .. } => pattern,
        _ => state.pattern,
    };
    let reason = match result {
        RewriteResultV::Trivial(_) => HaltReasonV::Trivial,
        RewriteResultV::Vacuous(_) => HaltReasonV::Vacuous,
        RewriteResultV::Indeterminate { reason, .. } => match reason {
            IndeterminateReasonV::Simplification { error, .. } => {
                HaltReasonV::Simplification(error)
            },
            reason => HaltReasonV::Indeterminate(reason),
        },
        _ => HaltReasonV::Stuck,
    };
    lemma_left_at(
        config.options.max_depth,
        progress,
        (ExecutionStateV { pattern, ..state }).leaf(reason),
    );
}

proof fn lemma_constraints_taken<'a, K: Kernel, S: SmtSolver>(
    config: ExecutionConfig<'a, K, S>,
    progress: ProgressV,
    state: ExecutionStateV,
    retained: SubstitutionV,
    outcome: Result<Seq<PredicateV>, SimplificationErrorV>,
)
    requires
        progress_is_reached(config.options.max_depth, progress),
        state_is_reached(config.options.max_depth, state),
    ensures
        machine_is_reached(
            config.options.max_depth,
            constraints_taken(config, progress, state, retained, outcome),
        ),
{
    let max_depth = config.options.max_depth;
    match outcome {
        Err(error) => {
            lemma_left_at(max_depth, progress, state.leaf(HaltReasonV::Simplification(error)));
        },
        Ok(constraints) => {
            let pattern = pattern_constrained(config, state.pattern, retained, constraints);
            let leaf = (ExecutionStateV { pattern, ..state }).leaf(HaltReasonV::Vacuous);
            lemma_left_at(max_depth, progress, leaf);
            lemma_left_at(
                max_depth,
                with_completed(progress, true),
                leaf,
            );
        },
    }
}

proof fn lemma_term_taken<'a, K: Kernel, S: SmtSolver>(
    config: ExecutionConfig<'a, K, S>,
    progress: ProgressV,
    state: ExecutionStateV,
    deferred: Option<PatternV>,
    outcome: Result<SimplificationV, SimplificationErrorV>,
)
    requires
        progress_is_reached(config.options.max_depth, progress),
        state_is_reached(config.options.max_depth, state),
    ensures
        machine_is_reached(
            config.options.max_depth,
            term_taken(config, progress, state, deferred, outcome),
        ),
{
    let max_depth = config.options.max_depth;
    match outcome {
        Err(error) => {
            lemma_left_at(max_depth, progress, state.leaf(HaltReasonV::Simplification(error)));
        },
        Ok(result) => {
            lemma_steps_simplified(state.trace, state.depth, result.applied_rules, 0);
            let simple = state_simplified(config, state, result);
            let recorded = with_effects(progress, result.effects);
            let bottom = deferred is None && conjunction_truth(
                simple.pattern.constraints,
            ) is False;
            let counted = if simple.is_initial_input {
                with_completed(recorded, bottom)
            } else {
                recorded
            };
            lemma_left_at(max_depth, counted, simple.leaf(HaltReasonV::Vacuous));
            lemma_left_at(max_depth, counted, simple.leaf(HaltReasonV::DepthBound));
        },
    }
}

proof fn lemma_branch_point<'a, K: Kernel, S: SmtSolver>(
    config: ExecutionConfig<'a, K, S>,
    progress: ProgressV,
    state: ExecutionStateV,
    original: PatternV,
    branches: Seq<AppliedRuleV>,
    remainder: Option<RemainderBranchV>,
)
    requires
        progress_is_reached(config.options.max_depth, progress),
        state_is_reached(config.options.max_depth, state),
        state.depth < config.options.max_depth,
    ensures
        machine_is_reached(
            config.options.max_depth,
            branch_point_taken(config, progress, state, original, branches, remainder),
        ),
{
    let max_depth = config.options.max_depth;
    let there = ExecutionStateV { pattern: original, ..state };
    lemma_left_at(max_depth, progress, there.leaf(HaltReasonV::Stuck));
    lemma_left_at(
        max_depth,
        with_effects(
            progress,
            effects_of(branches, Seq::empty(), 0),
        ),
        there.leaf(HaltReasonV::Branch { branches, remainder }),
    );
    if branches.len() == 1 {
        lemma_state_after(config, state, branches[0]);
        lemma_gone_on(
            max_depth,
            with_effects(progress, branches[0].effects),
            state_after(config, state, branches[0]),
        );
    }
    if let Some(remainder) = remainder {
        lemma_state_left(config, state, remainder);
        lemma_gone_on(max_depth, progress, state_left(config, state, remainder));
    }
}

proof fn lemma_gone_on(max_depth: u64, progress: ProgressV, next: ExecutionStateV)
    requires
        progress_is_reached(max_depth, progress),
        state_is_reached(max_depth, next),
    ensures
        machine_is_reached(max_depth, gone_on(progress, next)),
{
    let pending = seq![next] + progress.pending;
    assert forall|i: int| 0 <= i < pending.len() implies state_is_reached(
        max_depth,
        #[trigger] pending[i],
    ) by {
        if i > 0 {
            assert(pending[i] == progress.pending[i - 1]);
        }
    }
}

proof fn lemma_advanced<'a, K: Kernel, S: SmtSolver>(
    config: ExecutionConfig<'a, K, S>,
    machine: MachineV,
)
    requires
        machine_is_reached(config.options.max_depth, machine),
    ensures
        machine_is_reached(config.options.max_depth, advanced(config, machine)),
{
    reveal(advanced);
    let max_depth = config.options.max_depth;
    let progress = machine.progress;
    match machine.phase {
        PhaseV::Waiting => {
            if progress.pending.len() > 0 {
                let rest = progress.pending.remove(0);
                assert(state_is_reached(max_depth, progress.pending[0]));
                assert forall|i: int| 0 <= i < rest.len() implies state_is_reached(
                    max_depth,
                    #[trigger] rest[i],
                ) by {
                    assert(rest[i] == progress.pending[i + 1]);
                }
            }
        },
        PhaseV::Started(_) => {},
        PhaseV::Constrained { state, retained, outcome } => {
            lemma_constraints_taken(config, progress, state, retained, outcome);
        },
        PhaseV::Simplified { state, deferred, outcome } => {
            lemma_term_taken(config, progress, state, deferred, outcome);
        },
        PhaseV::Rewritten { state, deferred, result } => {
            lemma_rewrite_taken(config, progress, state, deferred, result);
        },
        PhaseV::CutPoint { state, rule, applied } => {
            lemma_left_at(
                max_depth,
                progress,
                (ExecutionStateV { pattern: applied.pattern, ..state }).leaf(
                    HaltReasonV::Trivial,
                ),
            );
            lemma_left_at(
                max_depth,
                progress,
                state.leaf(HaltReasonV::CutPointRule { rule, next_states: seq![applied] }),
            );
        },
        PhaseV::Terminal { state, rule } => {
            lemma_left_at(max_depth, progress, state.leaf(HaltReasonV::Trivial));
            lemma_left_at(max_depth, progress, state.leaf(HaltReasonV::TerminalRule { rule }));
        },
        PhaseV::BranchPoint { state, original, branches, remainder } => {
            lemma_branch_point(config, progress, state, original, branches, remainder);
        },
        PhaseV::Finished => {},
    }
}

proof fn lemma_run<'a, K: Kernel, S: SmtSolver>(
    config: ExecutionConfig<'a, K, S>,
    machine: MachineV,
    fuel: nat,
)
    requires
        machine_is_reached(config.options.max_depth, machine),
    ensures
        machine_is_reached(config.options.max_depth, run(config, machine, fuel)),
    decreases fuel,
{
    if fuel > 0 && !(machine.phase is Finished) {
        lemma_advanced(config, machine);
        lemma_run(config, advanced(config, machine), (fuel - 1) as nat);
    }
}

proof fn lemma_initial_states(
    max_depth: u64,
    initial: Seq<PatternV>,
    found: Seq<ExecutionStateV>,
    from: int,
)
    requires
        states_are_reached(max_depth, found),
    ensures
        states_are_reached(max_depth, initial_states(initial, found, from)),
    decreases initial.len() - from,
{
    if from < initial.len() {
        let state = ExecutionStateV {
            pattern: initial[from],
            depth: 0,
            trace: Seq::empty(),
            path: ObservationPathV {
                branch: Seq::empty(),
                events: Seq::empty(),
            },
            is_initial_input: true,
        };
        assert(rewrite_steps(state.trace, 0) == 0);
        assert(state_is_reached(max_depth, state));
        lemma_initial_states(max_depth, initial, found.push(state), from + 1);
    }
}

proof fn lemma_merged_from(
    max_depth: u64,
    leaves: Seq<ExecutionLeafV>,
    seen: Seq<(TermV, Seq<PredicateV>)>,
    found: Seq<ExecutionLeafV>,
    from: int,
)
    requires
        0 <= from,
        leaves_are_reached(max_depth, leaves),
        leaves_are_reached(max_depth, found),
    ensures
        leaves_are_reached(max_depth, merged_from(leaves, seen, found, from)),
    decreases leaves.len() - from,
{
    if from < leaves.len() {
        assert(leaf_is_reached(max_depth, leaves[from]));
        let configuration = configuration_of(leaves[from]);
        lemma_merged_from(max_depth, leaves, seen, found.push(leaves[from]), from + 1);
        lemma_merged_from(max_depth, leaves, seen, found, from + 1);
        lemma_merged_from(
            max_depth,
            leaves,
            seen.push(configuration),
            found.push(leaves[from]),
            from + 1,
        );
    }
}

/// Every leaf of an execution is reached in as many rewrite steps as its depth says, which is within
/// the bound.
pub proof fn law_leaves_are_reached<'a, K: Kernel, S: SmtSolver>(
    config: ExecutionConfig<'a, K, S>,
    initial: Seq<PatternV>,
)
    ensures
        leaves_are_reached(
            config.options.max_depth,
            result_of(executed(config, initial)).leaves,
        ),
{
    let max_depth = config.options.max_depth;
    lemma_initial_states(max_depth, initial, Seq::empty(), 0);
    let pending = initial_states(initial, Seq::empty(), 0);
    lemma_at_breadth_bound(max_depth, pending, Seq::empty(), 0);
    lemma_run(config, machine_for(config, initial), WORK as nat);
    let leaves = executed(config, initial).leaves.retained;
    lemma_within_depth(max_depth, leaves, leaves.len() as int);
    lemma_merged_from(max_depth, selected(leaves), Seq::empty(), Seq::empty(), 0);
}

/// No two leaves of an execution have the same term and the same set of constraints, but for those
/// that stand for no configuration.
pub proof fn law_leaves_differ<'a, K: Kernel, S: SmtSolver>(
    config: ExecutionConfig<'a, K, S>,
    initial: Seq<PatternV>,
)
    ensures
        none_repeats(result_of(executed(config, initial)).leaves),
{
    law_merged_without_repeats(selected(executed(config, initial).leaves.retained));
}

} // verus!
