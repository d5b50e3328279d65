//! An execution loses no case: every state that a step leads to is taken up, or is in a leaf.

use vstd::prelude::*;
use crate::execution::{
    advanced, branch_stopped, effects_of, enqueued, initial_states, left_at, machine_for,
    outcome_taken, outcomes_simplified, remainder_expanded, result_recorded, result_tried, run,
    state_simplified, states_after, with_effects, MachineV, PhaseV, ProgressV, SimplifyingV,
    EXPANSIONS, WORK,
};
use crate::execution_parts::{
    application_observed, at_breadth_bound, deeper, state_after, state_left, ExecutionConfig,
};
use crate::execution_types::{ExecutionLeafV, ExecutionStateV, HaltReasonV, ObservationPathV};
use crate::kernel::Kernel;
use crate::model::deep;
use crate::pattern::{substitution_normalized, PatternV};
use crate::rewrite_types::{AppliedRuleV, IndeterminateReasonV, RemainderBranchV, RewriteResultV};
use crate::solver::SmtSolver;
use crate::step::stepped;
use crate::truth::conjunction_truth;

verus! {

// ---------------------------------------------------------------------------------------------
// Cases
// ---------------------------------------------------------------------------------------------
/// Whether a state with the given pattern, at the given depth, is among `states`.
pub open spec fn waits(states: Seq<ExecutionStateV>, pattern: PatternV, depth: u64) -> bool {
    exists|i: int|
        0 <= i < states.len() && (#[trigger] states[i]).pattern == pattern && states[i].depth
            == depth
}

/// The depth one step below `depth`, as far as depths are counted.
pub open spec fn one_below(depth: u64) -> u64 {
    if depth < u64::MAX {
        (depth + 1) as u64
    } else {
        depth
    }
}

/// Whether a state is among the leaves of an execution that ended because more states were to wait
/// than may wait at once.
pub open spec fn over_breadth<'a, K: Kernel, S: SmtSolver>(
    config: ExecutionConfig<'a, K, S>,
    machine: MachineV,
    pattern: PatternV,
    depth: u64,
) -> bool {
    let leaves = machine.progress.leaves.retained;
    &&& machine.phase is Finished
    &&& config.options.max_breadth is Some
    &&& leaves.len() > config.options.max_breadth->0
    &&& exists|i: int|
        0 <= i < leaves.len() && (#[trigger] leaves[i]).pattern == pattern && leaves[i].depth
            == depth && leaves[i].halt_reason is BreadthBound
}

/// Whether a state waits to be taken up, or is a leaf of an execution that ended at its breadth
/// bound.
pub open spec fn accounted<'a, K: Kernel, S: SmtSolver>(
    config: ExecutionConfig<'a, K, S>,
    machine: MachineV,
    pattern: PatternV,
    depth: u64,
) -> bool {
    waits(machine.progress.pending, pattern, depth) || over_breadth(config, machine, pattern, depth)
}

/// Whether all states that waited still wait, or are leaves of an execution that ended at its
/// breadth bound.
pub open spec fn all_accounted<'a, K: Kernel, S: SmtSolver>(
    config: ExecutionConfig<'a, K, S>,
    machine: MachineV,
    before: Seq<ExecutionStateV>,
) -> bool {
    forall|i: int|
        0 <= i < before.len() ==> accounted(
            config,
            machine,
            (#[trigger] before[i]).pattern,
            before[i].depth,
        )
}

/// Whether all states that waited still wait.
pub open spec fn all_wait(before: Seq<ExecutionStateV>, after: Seq<ExecutionStateV>) -> bool {
    forall|i: int| 0 <= i < before.len() ==> after.contains(#[trigger] before[i])
}

/// Whether a leaf was added for a pattern at a depth, with a reason to halt.
pub open spec fn leaf_added(
    before: ProgressV,
    after: ProgressV,
    pattern: PatternV,
    depth: u64,
    halt_reason: HaltReasonV,
) -> bool {
    exists|leaf: ExecutionLeafV|
        after.leaves == #[trigger] before.leaves.pushed(leaf) && leaf.pattern == pattern
            && leaf.depth == depth && leaf.halt_reason == halt_reason
}

/// Whether a branch is among `kept` with its pattern simplified, or does not hold when simplified.
pub open spec fn kept_or_refuted<'a, K: Kernel, S: SmtSolver>(
    config: ExecutionConfig<'a, K, S>,
    branch: AppliedRuleV,
    kept: Seq<AppliedRuleV>,
) -> bool {
    let simple = result_tried(config, branch.pattern);
    simple is Ok && (conjunction_truth(simple->Ok_0.pattern.constraints) is False || exists|i: int|
        0 <= i < kept.len() && (#[trigger] kept[i]).pattern == simple->Ok_0.pattern
            && kept[i].unique_id == branch.unique_id)
}

proof fn lemma_states_after<'a, K: Kernel, S: SmtSolver>(
    config: ExecutionConfig<'a, K, S>,
    state: ExecutionStateV,
    branches: Seq<AppliedRuleV>,
    found: Seq<ExecutionStateV>,
    from: int,
)
    requires
        0 <= from <= branches.len(),
    ensures
        found.is_prefix_of(states_after(config, state, branches, found, from)),
        forall|i: int|
            from <= i < branches.len() ==> waits(
                states_after(config, state, branches, found, from),
                (#[trigger] branches[i]).pattern,
                one_below(state.depth),
            ),
    decreases branches.len() - from,
{
    let all = states_after(config, state, branches, found, from);
    if from < branches.len() {
        let next = state_after(config, state, branches[from]);
        lemma_states_after(config, state, branches, found.push(next), from + 1);
        assert(found.push(next)[found.len() as int] == next);
        assert(all[found.len() as int] == next);
        assert(waits(all, branches[from].pattern, one_below(state.depth)));
    }
}

proof fn lemma_at_breadth_bound(
    states: Seq<ExecutionStateV>,
    found: Seq<ExecutionLeafV>,
    from: int,
)
    requires
        from == found.len(),
        from <= states.len(),
        forall|i: int|
            0 <= i < from ==> (#[trigger] found[i]) == states[i].leaf(HaltReasonV::BreadthBound),
    ensures
        at_breadth_bound(states, found, from).len() == states.len(),
        forall|i: int|
            0 <= i < states.len() ==> (#[trigger] at_breadth_bound(states, found, from)[i])
                == states[i].leaf(HaltReasonV::BreadthBound),
    decreases states.len() - from,
{
    if from < states.len() {
        lemma_at_breadth_bound(
            states,
            found.push(states[from].leaf(HaltReasonV::BreadthBound)),
            from + 1,
        );
    }
}

proof fn lemma_enqueued<'a, K: Kernel, S: SmtSolver>(
    config: ExecutionConfig<'a, K, S>,
    progress: ProgressV,
    next: Seq<ExecutionStateV>,
)
    ensures
        all_accounted(config, enqueued(config, progress, next), next),
        all_accounted(config, enqueued(config, progress, next), progress.pending),
        config.options.max_breadth is None ==> all_wait(
            progress.pending,
            enqueued(config, progress, next).progress.pending,
        ),
{
    let pending = next + progress.pending;
    let machine = enqueued(config, progress, next);
    lemma_at_breadth_bound(pending, Seq::empty(), 0);
    assert forall|i: int| 0 <= i < pending.len() implies accounted(
        config,
        machine,
        (#[trigger] pending[i]).pattern,
        pending[i].depth,
    ) by {
        if machine.phase is Finished {
            assert(machine.progress.leaves.retained[i].pattern == pending[i].pattern);
        } else {
            assert(machine.progress.pending[i] == pending[i]);
        }
    }
    assert forall|i: int| 0 <= i < next.len() implies accounted(
        config,
        machine,
        (#[trigger] next[i]).pattern,
        next[i].depth,
    ) by {
        assert(pending[i] == next[i]);
    }
    assert forall|i: int| 0 <= i < progress.pending.len() implies accounted(
        config,
        machine,
        (#[trigger] progress.pending[i]).pattern,
        progress.pending[i].depth,
    ) && pending.contains(progress.pending[i]) by {
        assert(pending[next.len() + i] == progress.pending[i]);
    }
}

proof fn lemma_waiting_accounted<'a, K: Kernel, S: SmtSolver>(
    config: ExecutionConfig<'a, K, S>,
    machine: MachineV,
    states: Seq<ExecutionStateV>,
)
    requires
        all_wait(states, machine.progress.pending),
    ensures
        all_accounted(config, machine, states),
{
    let pending = machine.progress.pending;
    assert forall|i: int| 0 <= i < states.len() implies accounted(
        config,
        machine,
        (#[trigger] states[i]).pattern,
        states[i].depth,
    ) by {
        assert(pending.contains(states[i]));
        let j: int = choose|j: int| 0 <= j < pending.len() && pending[j] == states[i];
        assert(pending[j].pattern == states[i].pattern);
    }
}

/// Whether a rule is one of the `chosen`, by its label or by its identity.
pub open spec fn is_chosen(applied: AppliedRuleV, chosen: Seq<Seq<char>>) -> bool {
    (applied.label is Some && chosen.contains(applied.label->0)) || chosen.contains(
        applied.unique_id,
    )
}

/// Whether an execution is about to stop at the result of a rule, simplified as far as that can be
/// done.
pub open spec fn stops_at<'a, K: Kernel, S: SmtSolver>(
    config: ExecutionConfig<'a, K, S>,
    before: ProgressV,
    next: MachineV,
    state: ExecutionStateV,
    applied: AppliedRuleV,
    is_cut: bool,
) -> bool {
    let depth = if is_cut {
        state.depth
    } else {
        one_below(state.depth)
    };
    match result_tried(config, applied.pattern) {
        Err(error) => leaf_added(
            before,
            next.progress,
            applied.pattern,
            depth,
            HaltReasonV::Simplification(error),
        ),
        Ok(details) => match next.phase {
            PhaseV::CutPoint { state: now, applied: kept, .. } => {
                &&& is_cut
                &&& now.pattern == state.pattern
                &&& now.depth == depth
                &&& kept.pattern == details.pattern
                &&& kept.unique_id == applied.unique_id
            },
            PhaseV::Terminal { state: now, .. } => {
                &&& !is_cut
                &&& now.pattern == details.pattern
                &&& now.depth == depth
            },
            _ => false,
        },
    }
}

// ---------------------------------------------------------------------------------------------
// Steps
// ---------------------------------------------------------------------------------------------
/// A rewrite step of an execution loses no case. A state that no rule applies to, that has no
/// result, that does not hold, or of which that is not known becomes a leaf that says so. The
/// result of a single rule waits to be taken up, unless the rule is one to stop at. Where all
/// branches are explored, each of them and what the rules leave wait to be taken up. Where more
/// states would wait than may, they are leaves instead.
pub proof fn law_execution_loses_no_case<'a, K: Kernel, S: SmtSolver>(
    config: ExecutionConfig<'a, K, S>,
    machine: MachineV,
)
    requires
        machine.phase is Rewritten,
        machine.phase->Rewritten_deferred is None,
    ensures
        ({
            let next = advanced(config, machine);
            let before = machine.progress;
            let after = next.progress;
            let state = machine.phase->Rewritten_state;
            let depth = one_below(state.depth);
            &&& all_accounted(config, next, before.pending)
            &&& match machine.phase->Rewritten_result {
                RewriteResultV::Stuck(pattern) => leaf_added(
                    before,
                    after,
                    pattern,
                    state.depth,
                    HaltReasonV::Stuck,
                ),
                RewriteResultV::Trivial(pattern) => leaf_added(
                    before,
                    after,
                    pattern,
                    state.depth,
                    HaltReasonV::Trivial,
                ),
                RewriteResultV::Vacuous(pattern) => leaf_added(
                    before,
                    after,
                    pattern,
                    state.depth,
                    HaltReasonV::Vacuous,
                ),
                RewriteResultV::Indeterminate { pattern, .. } => exists|why: HaltReasonV|
                    (why is Indeterminate || why is Simplification) && #[trigger] leaf_added(
                        before,
                        after,
                        pattern,
                        state.depth,
                        why,
                    ),
                RewriteResultV::Finished(applied) => {
                    if is_chosen(applied, deep(config.options.cut_point_rules@)) {
                        stops_at(config, before, next, state, applied, true)
                    } else if is_chosen(applied, deep(config.options.terminal_rules@)) {
                        stops_at(config, before, next, state, applied, false)
                    } else {
                        accounted(config, next, applied.pattern, depth)
                    }
                },
                RewriteResultV::Branch { branches, remainder, .. } => {
                    config.options.branch_mode is ExploreAll ==> {
                        &&& forall|i: int|
                            0 <= i < branches.len() ==> accounted(
                                config,
                                next,
                                (#[trigger] branches[i]).pattern,
                                depth,
                            )
                        &&& remainder is Some ==> accounted(
                            config,
                            next,
                            remainder->0.pattern,
                            state.depth,
                        )
                    }
                },
            }
        }),
{
    reveal(advanced);
    let next = advanced(config, machine);
    let before = machine.progress;
    let state = machine.phase->Rewritten_state;
    if next.progress.pending == before.pending {
        assert(all_wait(before.pending, before.pending));
        lemma_waiting_accounted(config, next, before.pending);
    }
    match machine.phase->Rewritten_result {
        RewriteResultV::Finished(applied) => {
            let progress = with_effects(before, applied.effects);
            let successor = state_after(config, state, applied);
            if is_chosen(applied, deep(config.options.cut_point_rules@)) || is_chosen(
                applied,
                deep(config.options.terminal_rules@),
            ) {
                if let Err(error) = result_tried(config, applied.pattern) {
                    let halt_reason = HaltReasonV::Simplification(error);
                    let stopped = ExecutionStateV {
                        pattern: applied.pattern,
                        path: application_observed(config, state.path, applied),
                        ..state
                    };
                    assert(left_at(progress, stopped.leaf(halt_reason)).progress.leaves
                        == before.leaves.pushed(stopped.leaf(halt_reason)));
                    assert(left_at(progress, successor.leaf(halt_reason)).progress.leaves
                        == before.leaves.pushed(successor.leaf(halt_reason)));
                }
            } else {
                lemma_enqueued(config, progress, seq![successor]);
                assert(seq![successor][0] == successor);
                assert(accounted(config, next, successor.pattern, successor.depth));
            }
        },
        RewriteResultV::Branch { original, branches, remainder, .. } => {
            if config.options.branch_mode is ExploreAll {
                lemma_states_after(config, state, branches, Seq::empty(), 0);
                let first = states_after(config, state, branches, Seq::empty(), 0);
                let all = match remainder {
                    Some(remainder) => first.push(state_left(config, state, remainder)),
                    None => first,
                };
                let progress = with_effects(before, effects_of(branches, Seq::empty(), 0));
                lemma_enqueued(config, progress, all);
                assert(next == enqueued(config, progress, all));
                assert forall|i: int| 0 <= i < branches.len() implies accounted(
                    config,
                    next,
                    (#[trigger] branches[i]).pattern,
                    one_below(state.depth),
                ) by {
                    assert(waits(first, branches[i].pattern, one_below(state.depth)));
                    let j: int = choose|j: int|
                        0 <= j < first.len() && (#[trigger] first[j]).pattern == branches[i].pattern
                            && first[j].depth == one_below(state.depth);
                    assert(all[j] == first[j]);
                }
                if let Some(left) = remainder {
                    assert(all[first.len() as int] == state_left(config, state, left));
                }
            } else {
                lemma_stopped_waits(config, before, state, original, branches, remainder);
            }
        },
        RewriteResultV::Stuck(pattern) => {
            lemma_leaf(before, (ExecutionStateV { pattern, ..state }).leaf(HaltReasonV::Stuck));
        },
        RewriteResultV::Trivial(pattern) => {
            lemma_leaf(before, (ExecutionStateV { pattern, ..state }).leaf(HaltReasonV::Trivial));
        },
        RewriteResultV::Vacuous(pattern) => {
            lemma_leaf(before, (ExecutionStateV { pattern, ..state }).leaf(HaltReasonV::Vacuous));
        },
        RewriteResultV::Indeterminate { pattern, reason } => {
            let why = match reason {
                IndeterminateReasonV::Simplification { error, .. } => {
                    HaltReasonV::Simplification(error)
                },
                reason => HaltReasonV::Indeterminate(reason),
            };
            lemma_leaf(before, (ExecutionStateV { pattern, ..state }).leaf(why));
            assert(leaf_added(before, next.progress, pattern, state.depth, why));
        },
    }
}

proof fn lemma_leaf(progress: ProgressV, leaf: ExecutionLeafV)
    ensures
        leaf_added(
            progress,
            left_at(progress, leaf).progress,
            leaf.pattern,
            leaf.depth,
            leaf.halt_reason,
        ),
{
    assert(left_at(progress, leaf).progress.leaves == progress.leaves.pushed(leaf));
}

proof fn lemma_stopped_waits<'a, K: Kernel, S: SmtSolver>(
    config: ExecutionConfig<'a, K, S>,
    progress: ProgressV,
    state: ExecutionStateV,
    original: PatternV,
    branches: Seq<AppliedRuleV>,
    remainder: Option<RemainderBranchV>,
)
    ensures
        branch_stopped(config, progress, state, original, branches, remainder).progress.pending
            == progress.pending,
{
}

/// An execution that stops at a rule gives one leaf: before the rule, with the result; or behind
/// it. Where the result does not hold, the leaf is trivial instead.
pub proof fn law_chosen_rules_stop<'a, K: Kernel, S: SmtSolver>(
    config: ExecutionConfig<'a, K, S>,
    machine: MachineV,
)
    ensures
        ({
            let next = advanced(config, machine);
            let before = machine.progress;
            match machine.phase {
                PhaseV::CutPoint { state, rule, applied } => {
                    &&& next.progress.pending == before.pending
                    &&& next.phase is Waiting
                    &&& if conjunction_truth(applied.pattern.constraints) is False {
                        leaf_added(
                            before,
                            next.progress,
                            applied.pattern,
                            state.depth,
                            HaltReasonV::Trivial,
                        )
                    } else {
                        leaf_added(
                            before,
                            next.progress,
                            state.pattern,
                            state.depth,
                            HaltReasonV::CutPointRule { rule, next_states: seq![applied] },
                        )
                    }
                },
                PhaseV::Terminal { state, rule } => {
                    &&& next.progress.pending == before.pending
                    &&& next.phase is Waiting
                    &&& leaf_added(
                        before,
                        next.progress,
                        state.pattern,
                        state.depth,
                        if conjunction_truth(state.pattern.constraints) is False {
                            HaltReasonV::Trivial
                        } else {
                            HaltReasonV::TerminalRule { rule }
                        },
                    )
                },
                _ => true,
            }
        }),
{
    reveal(advanced);
    let before = machine.progress;
    match machine.phase {
        PhaseV::CutPoint { state, rule, applied } => {
            lemma_leaf(
                before,
                (ExecutionStateV { pattern: applied.pattern, ..state }).leaf(HaltReasonV::Trivial),
            );
            lemma_leaf(
                before,
                state.leaf(HaltReasonV::CutPointRule { rule, next_states: seq![applied] }),
            );
        },
        PhaseV::Terminal { state, rule } => {
            lemma_leaf(before, state.leaf(HaltReasonV::Trivial));
            lemma_leaf(before, state.leaf(HaltReasonV::TerminalRule { rule }));
        },
        _ => {},
    }
}

/// A state with a simplified term is rewritten, as long as it is above the depth bound: one at the
/// bound, one that could not be simplified, and an input that does not hold are leaves, and
/// nothing else is.
pub proof fn law_simplified_states_are_rewritten<'a, K: Kernel, S: SmtSolver>(
    config: ExecutionConfig<'a, K, S>,
    machine: MachineV,
)
    requires
        machine.phase is Simplified,
        machine.phase->Simplified_deferred is None,
    ensures
        ({
            let next = advanced(config, machine);
            let before = machine.progress;
            let state = machine.phase->Simplified_state;
            &&& next.progress.pending == before.pending
            &&& match machine.phase->Simplified_outcome {
                Err(error) => leaf_added(
                    before,
                    next.progress,
                    state.pattern,
                    state.depth,
                    HaltReasonV::Simplification(error),
                ),
                Ok(result) => {
                    let pattern = substitution_normalized(
                        config.definition.sort_graph@,
                        PatternV {
                            term: result.term,
                            constraints: state.pattern.constraints + result.constraints,
                        },
                    );
                    let fails = conjunction_truth(pattern.constraints) is False;
                    if state.is_initial_input && fails {
                        leaf_added(
                            before,
                            next.progress,
                            pattern,
                            state.depth,
                            HaltReasonV::Vacuous,
                        )
                    } else if state.depth >= config.options.max_depth {
                        leaf_added(
                            before,
                            next.progress,
                            pattern,
                            state.depth,
                            HaltReasonV::DepthBound,
                        )
                    } else {
                        &&& next.phase is Rewritten
                        &&& next.phase->Rewritten_state.pattern == pattern
                        &&& next.phase->Rewritten_state.depth == state.depth
                        &&& next.phase->Rewritten_deferred is None
                    }
                },
            }
        }),
{
    reveal(advanced);
    let before = machine.progress;
    let next = advanced(config, machine);
    let state = machine.phase->Simplified_state;
    match machine.phase->Simplified_outcome {
        Err(error) => {
            lemma_leaf(before, state.leaf(HaltReasonV::Simplification(error)));
        },
        Ok(result) => {
            let now = state_simplified(config, state, result);
            let vacuous = now.leaf(HaltReasonV::Vacuous);
            let bounded = now.leaf(HaltReasonV::DepthBound);
            if next.phase is Waiting {
                assert(next.progress.leaves == before.leaves.pushed(vacuous)
                    || next.progress.leaves == before.leaves.pushed(bounded));
            }
        },
    }
}

// ---------------------------------------------------------------------------------------------
// Stops at branches
// ---------------------------------------------------------------------------------------------
proof fn lemma_outcomes_kept<'a, K: Kernel, S: SmtSolver>(
    config: ExecutionConfig<'a, K, S>,
    depth: u64,
    branches: Seq<AppliedRuleV>,
    so_far: SimplifyingV,
    from: int,
)
    requires
        0 <= from <= branches.len(),
        so_far.failed is None,
    ensures
        ({
            let simple = outcomes_simplified(config, depth, branches, so_far, from);
            &&& so_far.kept.is_prefix_of(simple.kept)
            &&& simple.failed is None ==> forall|i: int|
                from <= i < branches.len() ==> kept_or_refuted(
                    config,
                    #[trigger] branches[i],
                    simple.kept,
                )
        }),
    decreases branches.len() - from,
{
    if from < branches.len() {
        if let Ok(details) = result_tried(config, branches[from].pattern) {
            let next = outcome_taken(config, depth, branches[from], details, so_far);
            lemma_outcomes_kept(config, depth, branches, next, from + 1);
            let simple = outcomes_simplified(config, depth, branches, so_far, from);
            if simple.failed is None && !(conjunction_truth(
                details.pattern.constraints,
            ) is False) {
                let at = so_far.kept.len() as int;
                assert(next.kept[at].pattern == details.pattern);
                assert(simple.kept[at] == next.kept[at]);
                assert(kept_or_refuted(config, branches[from], simple.kept));
            }
        }
    }
}

proof fn lemma_remainder_expanded<'a, K: Kernel, S: SmtSolver>(
    config: ExecutionConfig<'a, K, S>,
    branches: Seq<AppliedRuleV>,
    remainder: Option<RemainderBranchV>,
    counter: u64,
    fuel: nat,
)
    ensures
        match remainder_expanded(config, branches, remainder, counter, fuel).0 {
            Ok(outcomes) => forall|i: int|
                0 <= i < branches.len() ==> outcomes.0.contains(#[trigger] branches[i]),
            Err(_) => true,
        },
    decreases fuel,
{
    if let Some(current) = remainder {
        if fuel > 0 {
            match stepped(
                config.environment(),
                current.pattern,
                counter,
                config.spec_simplification(),
                config.options.mode,
                config.options.assume_initial_defined,
            ) {
                (RewriteResultV::Finished(applied), _) => {
                    let all = seq![applied] + branches;
                    assert forall|i: int| 0 <= i < branches.len() implies all.contains(
                        #[trigger] branches[i],
                    ) by {
                        assert(all[i + 1] == branches[i]);
                    }
                },
                (
                    RewriteResultV::Branch { branches: lower, remainder: lower_remainder, .. },
                    after,
                ) => {
                    let all = lower + branches;
                    lemma_remainder_expanded(
                        config,
                        all,
                        lower_remainder,
                        after,
                        (fuel - 1) as nat,
                    );
                    if let Ok(outcomes) = remainder_expanded(
                        config,
                        all,
                        lower_remainder,
                        after,
                        (fuel - 1) as nat,
                    ).0 {
                        assert forall|i: int| 0 <= i < branches.len() implies outcomes.0.contains(
                            #[trigger] branches[i],
                        ) by {
                            assert(all[lower.len() + i] == branches[i]);
                        }
                    }
                },
                _ => {},
            }
        }
    }
}

/// Where an execution stops at a branch, each branch of the step is among those of the stop with
/// its pattern simplified, or does not hold when simplified.
pub proof fn law_stops_keep_branches<'a, K: Kernel, S: SmtSolver>(
    config: ExecutionConfig<'a, K, S>,
    machine: MachineV,
)
    requires
        machine.phase is Rewritten,
        machine.phase->Rewritten_result is Branch,
        config.options.branch_mode is StopAtBranch,
        advanced(config, machine).phase is BranchPoint,
    ensures
        forall|i: int|
            0 <= i < machine.phase->Rewritten_result->branches.len() ==> kept_or_refuted(
                config,
                #[trigger] machine.phase->Rewritten_result->branches[i],
                advanced(config, machine).phase->BranchPoint_branches,
            ),
{
    reveal(advanced);
    let before = machine.progress;
    let branches = machine.phase->Rewritten_result->branches;
    let remainder = machine.phase->Rewritten_result->remainder;
    let state = machine.phase->Rewritten_state;
    let original = machine.phase->Rewritten_result->original;
    let (expanded, counter) = remainder_expanded(
        config,
        branches,
        remainder,
        before.counter,
        EXPANSIONS as nat,
    );
    lemma_remainder_expanded(config, branches, remainder, before.counter, EXPANSIONS as nat);
    let outcomes = expanded->Ok_0;
    let details = result_tried(config, original)->Ok_0;
    let progress = with_effects(
        ProgressV { counter, ..before },
        details.effects,
    );
    let now = result_recorded(config, state, original, details);
    let start = SimplifyingV {
        trace: now.trace,
        effects: progress.effects,
        discarded: progress.discarded,
        kept: Seq::empty(),
        failed: None,
    };
    lemma_outcomes_kept(
        config,
        deeper(now.depth),
        outcomes.0,
        start,
        0,
    );
    let simple = outcomes_simplified(
        config,
        deeper(now.depth),
        outcomes.0,
        start,
        0,
    );
    let kept = advanced(config, machine).phase->BranchPoint_branches;
    assert(simple.failed is None);
    assert(kept == simple.kept);
    assert forall|i: int| 0 <= i < branches.len() implies kept_or_refuted(
        config,
        #[trigger] branches[i],
        kept,
    ) by {
        assert(outcomes.0.contains(branches[i]));
        let j: int = choose|j: int| 0 <= j < outcomes.0.len() && outcomes.0[j] == branches[i];
        assert(kept_or_refuted(config, outcomes.0[j], kept));
    }
}

/// What comes of the branches that an execution stopped at: where there is more than one case, a
/// leaf that holds all of them; a single one waits to be taken up; and where there is none, the
/// state is stuck.
pub proof fn law_branch_points_lose_no_case<'a, K: Kernel, S: SmtSolver>(
    config: ExecutionConfig<'a, K, S>,
    machine: MachineV,
)
    requires
        machine.phase is BranchPoint,
    ensures
        ({
            let next = advanced(config, machine);
            let before = machine.progress;
            let after = next.progress;
            let state = machine.phase->BranchPoint_state;
            let branches = machine.phase->BranchPoint_branches;
            let remainder = machine.phase->BranchPoint_remainder;
            &&& all_wait(before.pending, after.pending)
            &&& {
                ||| leaf_added(
                    before,
                    after,
                    machine.phase->BranchPoint_original,
                    state.depth,
                    HaltReasonV::Branch { branches, remainder },
                )
                ||| branches.len() == 1 && remainder is None && waits(
                    after.pending,
                    branches[0].pattern,
                    one_below(state.depth),
                )
                ||| branches.len() == 0 && remainder is Some && waits(
                    after.pending,
                    remainder->0.pattern,
                    state.depth,
                )
                ||| branches.len() == 0 && remainder is None && leaf_added(
                    before,
                    after,
                    machine.phase->BranchPoint_original,
                    state.depth,
                    HaltReasonV::Stuck,
                )
            }
        }),
{
    reveal(advanced);
    let next = advanced(config, machine);
    let before = machine.progress;
    let state = machine.phase->BranchPoint_state;
    let original = machine.phase->BranchPoint_original;
    let branches = machine.phase->BranchPoint_branches;
    let remainder = machine.phase->BranchPoint_remainder;
    assert(all_wait(before.pending, before.pending));
    let now = ExecutionStateV { pattern: original, ..state };
    if branches.len() == 0 && remainder is None {
        lemma_leaf(before, now.leaf(HaltReasonV::Stuck));
    } else if (branches.len() == 1 && remainder is None) || branches.len() == 0 {
        let pending = next.progress.pending;
        assert forall|i: int| 0 <= i < before.pending.len() implies pending.contains(
            #[trigger] before.pending[i],
        ) by {
            assert(pending[i + 1] == before.pending[i]);
        }
        if branches.len() == 0 {
            assert(pending[0] == state_left(config, state, remainder->0));
        } else {
            assert(pending[0] == state_after(config, state, branches[0]));
        }
    } else {
        let progress = with_effects(
            before,
            effects_of(branches, Seq::empty(), 0),
        );
        lemma_leaf(progress, now.leaf(HaltReasonV::Branch { branches, remainder }));
        let leaf = now.leaf(HaltReasonV::Branch { branches, remainder });
        assert(next.progress.leaves == before.leaves.pushed(leaf));
    }
}

/// A waiting execution takes up its first state, and ends only where there is none.
pub proof fn law_execution_takes_up_states<'a, K: Kernel, S: SmtSolver>(
    config: ExecutionConfig<'a, K, S>,
    machine: MachineV,
)
    requires
        machine.phase is Waiting,
    ensures
        ({
            let next = advanced(config, machine);
            let pending = machine.progress.pending;
            &&& next.progress.leaves == machine.progress.leaves
            &&& if pending.len() == 0 {
                next.phase is Finished
            } else {
                next.phase == PhaseV::Started(pending[0]) && next.progress.pending
                    == pending.remove(0)
            }
        }),
{
    reveal(advanced);
}

/// The patterns that an execution starts from are taken up, in their order, each as it is.
pub proof fn law_execution_starts_from_all<'a, K: Kernel, S: SmtSolver>(
    config: ExecutionConfig<'a, K, S>,
    initial: Seq<PatternV>,
)
    requires
        config.options.max_breadth != Some(0usize),
    ensures
        ({
            let machine = machine_for(config, initial);
            &&& machine.phase is Waiting
            &&& machine.progress.pending.len() == initial.len()
            &&& forall|i: int|
                0 <= i < initial.len() ==> (#[trigger] machine.progress.pending[i]).pattern
                    == initial[i] && machine.progress.pending[i].depth == 0
        }),
{
    lemma_initial_states(initial, Seq::empty(), 0);
}

proof fn lemma_initial_states(
    initial: Seq<PatternV>,
    found: Seq<ExecutionStateV>,
    from: int,
)
    requires
        from == found.len(),
        from <= initial.len(),
        forall|i: int|
            0 <= i < from ==> (#[trigger] found[i]).pattern == initial[i] && found[i].depth == 0,
    ensures
        initial_states(initial, found, from).len() == initial.len(),
        forall|i: int|
            0 <= i < initial.len() ==> (#[trigger] initial_states(initial, found, from)[i]).pattern
                == initial[i] && initial_states(initial, found, from)[i].depth == 0,
    decreases initial.len() - from,
{
    if from < initial.len() {
        let next = initial_states(initial, found, from);
        let state = ExecutionStateV {
            pattern: initial[from],
            depth: 0,
            trace: Seq::empty(),
            path: ObservationPathV {
                branch: Seq::empty(),
                events: Seq::empty(),
            },
            is_initial_input: true,
        };
        lemma_initial_states(initial, found.push(state), from + 1);
    }
}

// ---------------------------------------------------------------------------------------------
// Whole executions
// ---------------------------------------------------------------------------------------------
/// The execution of patterns after `count` pieces of work.
pub open spec fn execution_at<'a, K: Kernel, S: SmtSolver>(
    config: ExecutionConfig<'a, K, S>,
    initial: Seq<PatternV>,
    count: nat,
) -> MachineV {
    run(config, machine_for(config, initial), count)
}

/// Whether an execution has just taken up a state, after `count` pieces of work.
pub open spec fn starts<'a, K: Kernel, S: SmtSolver>(
    config: ExecutionConfig<'a, K, S>,
    initial: Seq<PatternV>,
    count: nat,
    state: ExecutionStateV,
) -> bool {
    count <= WORK && execution_at(config, initial, count).phase == PhaseV::Started(state)
}

proof fn lemma_run_further<'a, K: Kernel, S: SmtSolver>(
    config: ExecutionConfig<'a, K, S>,
    machine: MachineV,
    count: nat,
)
    ensures
        run(config, machine, count + 1) == (if run(config, machine, count).phase is Finished {
            run(config, machine, count)
        } else {
            advanced(config, run(config, machine, count))
        }),
    decreases count,
{
    if count > 0 && !(machine.phase is Finished) {
        lemma_run_further(config, advanced(config, machine), (count - 1) as nat);
        assert(run(config, machine, count + 1) == run(config, advanced(config, machine), count));
    } else if !(machine.phase is Finished) {
        assert(run(config, machine, 1) == run(config, advanced(config, machine), 0));
    }
}

/// A piece of work keeps all states but the one that it takes up, unless there are too many.
proof fn lemma_states_kept<'a, K: Kernel, S: SmtSolver>(
    config: ExecutionConfig<'a, K, S>,
    machine: MachineV,
    state: ExecutionStateV,
)
    requires
        machine.progress.pending.contains(state),
        config.options.max_breadth is None,
    ensures
        ({
            let next = advanced(config, machine);
            ||| next.progress.pending.contains(state)
            ||| next.phase == PhaseV::Started(state)
        }),
{
    reveal(advanced);
    let pending = machine.progress.pending;
    let next = advanced(config, machine);
    let at: int = choose|at: int| 0 <= at < pending.len() && pending[at] == state;
    match machine.phase {
        PhaseV::Waiting => {
            if at > 0 {
                assert(next.progress.pending[at - 1] == state);
            }
        },
        PhaseV::Rewritten { state: own, deferred, result } => {
            match result {
                RewriteResultV::Finished(applied) => {
                    lemma_enqueued(
                        config,
                        with_effects(machine.progress, applied.effects),
                        seq![state_after(config, own, applied)],
                    );
                    assert(next.progress.pending.contains(pending[at]));
                },
                RewriteResultV::Branch { original, branches, remainder, .. } => {
                    if config.options.branch_mode is ExploreAll {
                        let first = states_after(config, own, branches, Seq::empty(), 0);
                        lemma_enqueued(
                            config,
                            with_effects(
                                machine.progress,
                                effects_of(branches, Seq::empty(), 0),
                            ),
                            match remainder {
                                Some(left) => first.push(state_left(config, own, left)),
                                None => first,
                            },
                        );
                        assert(next.progress.pending.contains(pending[at]));
                    } else {
                        lemma_stopped_waits(
                            config,
                            machine.progress,
                            own,
                            original,
                            branches,
                            remainder,
                        );
                        assert(next.progress.pending[at] == state);
                    }
                },
                _ => {
                    assert(next.progress.pending[at] == state);
                },
            }
        },
        PhaseV::BranchPoint { .. } => {
            law_branch_points_lose_no_case(config, machine);
            assert(next.progress.pending.contains(pending[at]));
        },
        _ => {
            assert(next.progress.pending[at] == state);
        },
    }
}

/// Every state that waits at some time is taken up later, where the states that may wait at once
/// have no bound and the execution ends. So no branch, no remainder and no pattern that it starts
/// from is passed over.
pub proof fn law_waiting_states_are_taken_up<'a, K: Kernel, S: SmtSolver>(
    config: ExecutionConfig<'a, K, S>,
    initial: Seq<PatternV>,
    count: nat,
    state: ExecutionStateV,
)
    requires
        config.options.max_breadth is None,
        count <= WORK,
        execution_at(config, initial, count).progress.pending.contains(state),
        execution_at(config, initial, WORK as nat).progress.pending.len() == 0,
    ensures
        exists|later: nat| count < later && #[trigger] starts(config, initial, later, state),
    decreases WORK - count,
{
    let machine = execution_at(config, initial, count);
    if count < WORK {
        lemma_run_further(config, machine_for(config, initial), count);
        let next = execution_at(config, initial, count + 1);
        if !(machine.phase is Finished) {
            lemma_states_kept(config, machine, state);
        }
        if next.progress.pending.contains(state) {
            law_waiting_states_are_taken_up(config, initial, count + 1, state);
            let later = choose|later: nat|
                count + 1 < later && #[trigger] starts(config, initial, later, state);
            assert(starts(config, initial, later, state));
        } else {
            assert(starts(config, initial, count + 1, state));
        }
    }
}

} // verus!
