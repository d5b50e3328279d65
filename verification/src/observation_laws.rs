//! Observing an execution adds to what it reports, and changes nothing else.

use vstd::prelude::*;
use crate::execution::{
    advanced, branch_point_taken, branch_stopped, constraints_taken, effects_of, enqueued, executed,
    initial_states, left_at, machine_for, outcome_taken, outcomes_explored, outcomes_simplified,
    outcomes_tried, remainder_expanded, remainder_simplified, result_of, result_recorded,
    result_tried, rewrite_taken, run, single_outcome, state_simplified, states_after, status_of,
    term_taken, with_completed, with_effects, EXPANSIONS, MachineV, OutcomesV, PhaseV, ProgressV,
    SimplifyingV, WORK,
};
use crate::execution_parts::{
    application_observed, at_breadth_bound, deeper, observed_rules, state_after, state_left,
    ExecutionConfig,
};
use crate::execution_types::{ExecutionLeafV, ExecutionStateV, HaltReasonV, ObservationPathV};
use crate::kernel::Kernel;
use crate::leaves::{
    any_stuck, configuration_of, merged, merged_from, selected, stands_for_none, within_depth,
    SelectedExecutionLeavesV,
};
use crate::pattern::PatternV;
use crate::predicate::PredicateV;
use crate::rewrite_types::{AppliedRuleV, RemainderBranchV, RewriteResultV};
use crate::simplify_types::{PatternSimplificationV, SimplificationErrorV, SimplificationV};
use crate::solver::SmtSolver;
use crate::substitution::SubstitutionV;
use crate::term::TermV;
use crate::step::stepped;

verus! {

// ---------------------------------------------------------------------------------------------
// Without observations
// ---------------------------------------------------------------------------------------------
/// `config` without observation.
pub open spec fn unobserved<'a, K: Kernel, S: SmtSolver>(
    config: ExecutionConfig<'a, K, S>,
) -> ExecutionConfig<'a, K, S> {
    ExecutionConfig { observation: None, ..config }
}

/// A leaf without what was observed on the way.
pub open spec fn bare_leaf(leaf: ExecutionLeafV) -> ExecutionLeafV {
    ExecutionLeafV { branch: Seq::empty(), observations: Seq::empty(), ..leaf }
}

/// [`bare_leaf`] of each.
pub open spec fn bare_leaves(leaves: Seq<ExecutionLeafV>) -> Seq<ExecutionLeafV> {
    Seq::new(leaves.len(), |i: int| bare_leaf(leaves[i]))
}

spec fn bare_state(state: ExecutionStateV) -> ExecutionStateV {
    ExecutionStateV {
        path: ObservationPathV { branch: Seq::empty(), events: Seq::empty() },
        ..state
    }
}

spec fn bare_states(states: Seq<ExecutionStateV>) -> Seq<ExecutionStateV> {
    Seq::new(states.len(), |i: int| bare_state(states[i]))
}

spec fn bare_progress(progress: ProgressV) -> ProgressV {
    ProgressV {
        pending: bare_states(progress.pending),
        leaves: SelectedExecutionLeavesV {
            retained: bare_leaves(progress.leaves.retained),
            ..progress.leaves
        },
        discarded: Seq::empty(),
        ..progress
    }
}

spec fn bare_phase(phase: PhaseV) -> PhaseV {
    match phase {
        PhaseV::Waiting => PhaseV::Waiting,
        PhaseV::Started(state) => PhaseV::Started(bare_state(state)),
        PhaseV::Constrained { state, retained, outcome } => PhaseV::Constrained {
            state: bare_state(state),
            retained,
            outcome,
        },
        PhaseV::Simplified { state, deferred, outcome } => PhaseV::Simplified {
            state: bare_state(state),
            deferred,
            outcome,
        },
        PhaseV::Rewritten { state, deferred, result } => PhaseV::Rewritten {
            state: bare_state(state),
            deferred,
            result,
        },
        PhaseV::CutPoint { state, rule, applied } => PhaseV::CutPoint {
            state: bare_state(state),
            rule,
            applied,
        },
        PhaseV::Terminal { state, rule } => PhaseV::Terminal { state: bare_state(state), rule },
        PhaseV::BranchPoint { state, original, branches, remainder } => PhaseV::BranchPoint {
            state: bare_state(state),
            original,
            branches,
            remainder,
        },
        PhaseV::Finished => PhaseV::Finished,
    }
}

spec fn bare(machine: MachineV) -> MachineV {
    MachineV { progress: bare_progress(machine.progress), phase: bare_phase(machine.phase) }
}

proof fn lemma_nothing_observed<'a, K: Kernel, S: SmtSolver>(
    config: ExecutionConfig<'a, K, S>,
    rules: Seq<Seq<char>>,
    from: int,
)
    requires
        config.observation is None,
    ensures
        observed_rules(config, rules, Seq::empty(), from) == Seq::<Seq<char>>::empty(),
    decreases rules.len() - from,
{
    if from < rules.len() {
        lemma_nothing_observed(config, rules, from + 1);
    }
}

// ---------------------------------------------------------------------------------------------
// Leaves and states
// ---------------------------------------------------------------------------------------------
proof fn lemma_within_depth(leaves: Seq<ExecutionLeafV>, count: int)
    requires
        0 <= count <= leaves.len(),
    ensures
        within_depth(bare_leaves(leaves), count) == bare_leaves(within_depth(leaves, count)),
        any_stuck(bare_leaves(leaves), count) == any_stuck(leaves, count),
    decreases count,
{
    if count > 0 {
        lemma_within_depth(leaves, count - 1);
    }
    assert(within_depth(bare_leaves(leaves), count) =~= bare_leaves(within_depth(leaves, count)));
}

proof fn lemma_pushed(leaves: SelectedExecutionLeavesV, leaf: ExecutionLeafV)
    ensures
        ({
            let bare_before = SelectedExecutionLeavesV {
                retained: bare_leaves(leaves.retained),
                ..leaves
            };
            let after = leaves.pushed(leaf);
            bare_before.pushed(bare_leaf(leaf)) == SelectedExecutionLeavesV {
                retained: bare_leaves(after.retained),
                ..after
            }
        }),
{
    lemma_within_depth(leaves.retained, leaves.retained.len() as int);
    let bare_before = SelectedExecutionLeavesV { retained: bare_leaves(leaves.retained), ..leaves };
    assert(bare_before.pushed(bare_leaf(leaf)).retained =~= bare_leaves(
        leaves.pushed(leaf).retained,
    ));
}

/// Wherever an execution stops, observing makes no difference.
proof fn lemma_left_at(progress: ProgressV)
    ensures
        forall|leaf: ExecutionLeafV|
            bare(#[trigger] left_at(progress, leaf)) == left_at(
                bare_progress(progress),
                bare_leaf(leaf),
            ),
{
    assert forall|leaf: ExecutionLeafV| bare(#[trigger] left_at(progress, leaf)) == left_at(
        bare_progress(progress),
        bare_leaf(leaf),
    ) by {
        lemma_pushed(progress.leaves, leaf);
    }
}

proof fn lemma_at_breadth_bound(
    states: Seq<ExecutionStateV>,
    found: Seq<ExecutionLeafV>,
    from: int,
)
    requires
        0 <= from,
    ensures
        at_breadth_bound(bare_states(states), bare_leaves(found), from) == bare_leaves(
            at_breadth_bound(states, found, from),
        ),
    decreases states.len() - from,
{
    if from < states.len() {
        let leaf = states[from].leaf(HaltReasonV::BreadthBound);
        lemma_at_breadth_bound(states, found.push(leaf), from + 1);
        assert(bare_leaves(found.push(leaf)) =~= bare_leaves(found).push(bare_leaf(leaf)));
        assert(bare_states(states)[from].leaf(HaltReasonV::BreadthBound) == bare_leaf(leaf));
    }
}

proof fn lemma_enqueued<'a, K: Kernel, S: SmtSolver>(
    config: ExecutionConfig<'a, K, S>,
    progress: ProgressV,
    next: Seq<ExecutionStateV>,
)
    ensures
        enqueued(unobserved(config), bare_progress(progress), bare_states(next)) == bare(
            enqueued(config, progress, next),
        ),
{
    let pending = next + progress.pending;
    assert(bare_states(next) + bare_states(progress.pending) =~= bare_states(pending));
    lemma_at_breadth_bound(pending, Seq::empty(), 0);
    assert(bare_leaves(Seq::empty()) =~= Seq::empty());
    assert(bare_states(Seq::empty()) =~= Seq::empty());
}

proof fn lemma_states_after<'a, K: Kernel, S: SmtSolver>(
    config: ExecutionConfig<'a, K, S>,
    state: ExecutionStateV,
    branches: Seq<AppliedRuleV>,
    found: Seq<ExecutionStateV>,
    from: int,
)
    requires
        0 <= from,
    ensures
        states_after(unobserved(config), bare_state(state), branches, bare_states(found), from)
            == bare_states(states_after(config, state, branches, found, from)),
    decreases branches.len() - from,
{
    if from < branches.len() {
        let next = state_after(config, state, branches[from]);
        lemma_states_after(config, state, branches, found.push(next), from + 1);
        assert(bare_states(found.push(next)) =~= bare_states(found).push(bare_state(next)));
        assert(state_after(unobserved(config), bare_state(state), branches[from]) == bare_state(
            next,
        ));
    }
}

// ---------------------------------------------------------------------------------------------
// Branch points
// ---------------------------------------------------------------------------------------------
spec fn bare_simplifying(simple: SimplifyingV) -> SimplifyingV {
    SimplifyingV { discarded: Seq::empty(), ..simple }
}

proof fn lemma_outcomes_simplified<'a, K: Kernel, S: SmtSolver>(
    config: ExecutionConfig<'a, K, S>,
    depth: u64,
    branches: Seq<AppliedRuleV>,
    so_far: SimplifyingV,
    from: int,
)
    requires
        0 <= from,
    ensures
        outcomes_simplified(unobserved(config), depth, branches, bare_simplifying(so_far), from)
            == bare_simplifying(outcomes_simplified(config, depth, branches, so_far, from)),
    decreases branches.len() - from,
{
    if from < branches.len() {
        assert(result_tried(unobserved(config), branches[from].pattern) == result_tried(
            config,
            branches[from].pattern,
        ));
        if let Ok(details) = result_tried(config, branches[from].pattern) {
            let next = outcome_taken(config, depth, branches[from], details, so_far);
            lemma_outcomes_simplified(config, depth, branches, next, from + 1);
            assert(outcome_taken(
                unobserved(config),
                depth,
                branches[from],
                details,
                bare_simplifying(so_far),
            ) == bare_simplifying(next));
        }
    }
}

proof fn lemma_outcomes_tried<'a, K: Kernel, S: SmtSolver>(
    config: ExecutionConfig<'a, K, S>,
    progress: ProgressV,
    state: ExecutionStateV,
    original: PatternV,
    outcomes: OutcomesV,
)
    ensures
        outcomes_tried(
            unobserved(config),
            bare_progress(progress),
            bare_state(state),
            original,
            outcomes,
        ) == bare(outcomes_tried(config, progress, state, original, outcomes)),
{
    let start = SimplifyingV {
        trace: state.trace,
        effects: progress.effects,
        discarded: progress.discarded,
        kept: Seq::empty(),
        failed: None,
    };
    let depth = deeper(state.depth);
    lemma_outcomes_simplified(config, depth, outcomes.0, start, 0);
    let simple = outcomes_simplified(config, depth, outcomes.0, start, 0);
    assert(remainder_simplified(
        unobserved(config),
        state.depth,
        outcomes.1,
        bare_simplifying(simple),
    ) == {
        let (remainder, after) = remainder_simplified(config, state.depth, outcomes.1, simple);
        (remainder, bare_simplifying(after))
    });
    let last = if simple.failed is Some {
        simple
    } else {
        remainder_simplified(config, state.depth, outcomes.1, simple).1
    };
    lemma_left_at(
        ProgressV { effects: last.effects, discarded: last.discarded, ..progress },
    );
}

proof fn lemma_remainder_expanded<'a, K: Kernel, S: SmtSolver>(
    config: ExecutionConfig<'a, K, S>,
    branches: Seq<AppliedRuleV>,
    remainder: Option<RemainderBranchV>,
    counter: u64,
    fuel: nat,
)
    ensures
        remainder_expanded(unobserved(config), branches, remainder, counter, fuel)
            == remainder_expanded(config, branches, remainder, counter, fuel),
    decreases fuel,
{
    if let Some(current) = remainder {
        if fuel > 0 {
            let other = unobserved(config);
            assert(other.environment() == config.environment());
            assert(other.spec_simplification() == config.spec_simplification());
            if let (RewriteResultV::Branch { branches: lower, remainder: left, .. }, after) =
                stepped(
                config.environment(),
                current.pattern,
                counter,
                config.spec_simplification(),
                config.options.mode,
                config.options.assume_initial_defined,
            ) {
                lemma_remainder_expanded(
                    config,
                    lower + branches,
                    left,
                    after,
                    (fuel - 1) as nat,
                );
            }
        }
    }
}

proof fn lemma_recorded<'a, K: Kernel, S: SmtSolver>(
    config: ExecutionConfig<'a, K, S>,
    state: ExecutionStateV,
    before: PatternV,
    details: PatternSimplificationV,
)
    ensures
        result_recorded(unobserved(config), bare_state(state), before, details) == bare_state(
            result_recorded(config, state, before, details),
        ),
{
    lemma_nothing_observed(unobserved(config), details.applied_rules, 0);
}

#[verifier::spinoff_prover]
proof fn lemma_branch_stopped<'a, K: Kernel, S: SmtSolver>(
    config: ExecutionConfig<'a, K, S>,
    progress: ProgressV,
    state: ExecutionStateV,
    original: PatternV,
    branches: Seq<AppliedRuleV>,
    remainder: Option<RemainderBranchV>,
)
    ensures
        branch_stopped(
            unobserved(config),
            bare_progress(progress),
            bare_state(state),
            original,
            branches,
            remainder,
        ) == bare(branch_stopped(config, progress, state, original, branches, remainder)),
{
    let fuel = EXPANSIONS as nat;
    lemma_remainder_expanded(config, branches, remainder, progress.counter, fuel);
    let (expanded, counter) = remainder_expanded(
        config,
        branches,
        remainder,
        progress.counter,
        fuel,
    );
    let progress = ProgressV { counter, ..progress };
    lemma_left_at(progress);
    assert(result_tried(unobserved(config), original) == result_tried(config, original));
    if let Ok(outcomes) = expanded {
        if let Ok(details) = result_tried(config, original) {
            let progress = with_effects(progress, details.effects);
            lemma_left_at(progress);
            lemma_recorded(config, state, original, details);
            let state = result_recorded(config, state, original, details);
            lemma_outcomes_tried(config, progress, state, details.pattern, outcomes);
        }
    }
}

#[verifier::spinoff_prover]
proof fn lemma_branch_point<'a, K: Kernel, S: SmtSolver>(
    config: ExecutionConfig<'a, K, S>,
    progress: ProgressV,
    state: ExecutionStateV,
    original: PatternV,
    branches: Seq<AppliedRuleV>,
    remainder: Option<RemainderBranchV>,
)
    ensures
        branch_point_taken(
            unobserved(config),
            bare_progress(progress),
            bare_state(state),
            original,
            branches,
            remainder,
        ) == bare(branch_point_taken(config, progress, state, original, branches, remainder)),
{
    lemma_left_at(progress);
    if branches.len() == 0 && remainder is None {
    } else if branches.len() == 1 && remainder is None {
        let next = state_after(config, state, branches[0]);
        assert(bare_states(seq![next] + progress.pending) =~= seq![bare_state(next)] + bare_states(
            progress.pending,
        ));
    } else if branches.len() == 0 {
        let next = state_left(config, state, remainder->0);
        assert(bare_states(seq![next] + progress.pending) =~= seq![bare_state(next)] + bare_states(
            progress.pending,
        ));
    } else {
        let effects = effects_of(branches, Seq::empty(), 0);
        lemma_left_at(with_effects(progress, effects));
    }
}

// ---------------------------------------------------------------------------------------------
// Steps
// ---------------------------------------------------------------------------------------------
#[verifier::spinoff_prover]
proof fn lemma_single_outcome<'a, K: Kernel, S: SmtSolver>(
    config: ExecutionConfig<'a, K, S>,
    progress: ProgressV,
    state: ExecutionStateV,
    applied: AppliedRuleV,
)
    ensures
        single_outcome(unobserved(config), bare_progress(progress), bare_state(state), applied)
            == bare(single_outcome(config, progress, state, applied)),
{
    let progress = with_effects(progress, applied.effects);
    lemma_left_at(progress);
    let observed = ExecutionStateV {
        path: application_observed(config, state.path, applied),
        ..state
    };
    let next = state_after(config, state, applied);
    assert(result_tried(unobserved(config), applied.pattern) == result_tried(
        config,
        applied.pattern,
    ));
    if let Ok(details) = result_tried(config, applied.pattern) {
        lemma_recorded(config, observed, applied.pattern, details);
        lemma_recorded(config, next, applied.pattern, details);
    }
    lemma_enqueued(config, progress, seq![next]);
    assert(bare_states(seq![next]) =~= seq![bare_state(next)]);
}

#[verifier::spinoff_prover]
proof fn lemma_explored<'a, K: Kernel, S: SmtSolver>(
    config: ExecutionConfig<'a, K, S>,
    progress: ProgressV,
    state: ExecutionStateV,
    branches: Seq<AppliedRuleV>,
    remainder: Option<RemainderBranchV>,
)
    ensures
        outcomes_explored(
            unobserved(config),
            bare_progress(progress),
            bare_state(state),
            branches,
            remainder,
        ) == bare(outcomes_explored(config, progress, state, branches, remainder)),
{
    lemma_states_after(config, state, branches, Seq::empty(), 0);
    assert(bare_states(Seq::empty()) =~= Seq::empty());
    let next = states_after(config, state, branches, Seq::empty(), 0);
    let effects = effects_of(branches, Seq::empty(), 0);
    let after = with_effects(progress, effects);
    match remainder {
        Some(remainder) => {
            let left = state_left(config, state, remainder);
            assert(bare_states(next.push(left)) =~= bare_states(next).push(bare_state(left)));
            lemma_enqueued(config, after, next.push(left));
        },
        None => {
            lemma_enqueued(config, after, next);
        },
    }
}

#[verifier::spinoff_prover]
proof fn lemma_rewrite_taken<'a, K: Kernel, S: SmtSolver>(
    config: ExecutionConfig<'a, K, S>,
    progress: ProgressV,
    state: ExecutionStateV,
    deferred: Option<PatternV>,
    result: RewriteResultV,
)
    ensures
        rewrite_taken(
            unobserved(config),
            bare_progress(progress),
            bare_state(state),
            deferred,
            result,
        ) == bare(rewrite_taken(config, progress, state, deferred, result)),
{
    lemma_left_at(progress);
    match result {
        RewriteResultV::Finished(applied) => {
            lemma_single_outcome(config, progress, state, applied);
        },
        RewriteResultV::Branch { original, branches, remainder, .. } => {
            lemma_branch_stopped(config, progress, state, original, branches, remainder);
            lemma_explored(config, progress, state, branches, remainder);
        },
        _ => {},
    }
}

#[verifier::spinoff_prover]
proof fn lemma_constraints_taken<'a, K: Kernel, S: SmtSolver>(
    config: ExecutionConfig<'a, K, S>,
    progress: ProgressV,
    state: ExecutionStateV,
    retained: SubstitutionV,
    outcome: Result<Seq<PredicateV>, SimplificationErrorV>,
)
    ensures
        constraints_taken(
            unobserved(config),
            bare_progress(progress),
            bare_state(state),
            retained,
            outcome,
        ) == bare(constraints_taken(config, progress, state, retained, outcome)),
{
    lemma_left_at(progress);
    lemma_left_at(with_completed(progress, true));
}

#[verifier::spinoff_prover]
proof fn lemma_term_taken<'a, K: Kernel, S: SmtSolver>(
    config: ExecutionConfig<'a, K, S>,
    progress: ProgressV,
    state: ExecutionStateV,
    deferred: Option<PatternV>,
    outcome: Result<SimplificationV, SimplificationErrorV>,
)
    ensures
        term_taken(
            unobserved(config),
            bare_progress(progress),
            bare_state(state),
            deferred,
            outcome,
        ) == bare(term_taken(config, progress, state, deferred, outcome)),
{
    lemma_left_at(progress);
    if let Ok(result) = outcome {
        let recorded = with_effects(progress, result.effects);
        lemma_left_at(recorded);
        lemma_left_at(with_completed(recorded, true));
        lemma_left_at(with_completed(recorded, false));
        lemma_nothing_observed(unobserved(config), result.applied_rules, 0);
        assert(state_simplified(unobserved(config), bare_state(state), result) == bare_state(
            state_simplified(config, state, result),
        ));
        assert(unobserved(config).environment() == config.environment());
    }
}

#[verifier::spinoff_prover]
proof fn lemma_advanced<'a, K: Kernel, S: SmtSolver>(
    config: ExecutionConfig<'a, K, S>,
    machine: MachineV,
)
    ensures
        advanced(unobserved(config), bare(machine)) == bare(advanced(config, machine)),
{
    reveal(advanced);
    let progress = machine.progress;
    lemma_left_at(progress);
    match machine.phase {
        PhaseV::Waiting => {
            if progress.pending.len() > 0 {
                assert(bare_states(progress.pending.remove(0)) =~= bare_states(
                    progress.pending,
                ).remove(0));
            }
        },
        PhaseV::Constrained { state, retained, outcome } => {
            lemma_constraints_taken(config, progress, state, retained, outcome);
        },
        PhaseV::Simplified { state, deferred, outcome } => {
            lemma_term_taken(config, progress, state, deferred, outcome);
        },
        PhaseV::Rewritten { state, deferred, result } => {
            lemma_rewrite_taken(config, progress, state, deferred, result);
        },
        PhaseV::BranchPoint { state, original, branches, remainder } => {
            lemma_branch_point(config, progress, state, original, branches, remainder);
        },
        _ => {},
    }
}

proof fn lemma_run<'a, K: Kernel, S: SmtSolver>(
    config: ExecutionConfig<'a, K, S>,
    machine: MachineV,
    fuel: nat,
)
    ensures
        run(unobserved(config), bare(machine), fuel) == bare(run(config, machine, fuel)),
    decreases fuel,
{
    if fuel > 0 && !(machine.phase is Finished) {
        lemma_advanced(config, machine);
        lemma_run(config, advanced(config, machine), (fuel - 1) as nat);
    }
}

proof fn lemma_initial(initial: Seq<PatternV>, found: Seq<ExecutionStateV>, from: int)
    requires
        bare_states(found) == found,
        0 <= from,
    ensures
        bare_states(initial_states(initial, found, from)) == initial_states(initial, found, from),
    decreases initial.len() - from,
{
    if from < initial.len() {
        let state = ExecutionStateV {
            pattern: initial[from],
            depth: 0,
            trace: Seq::empty(),
            path: ObservationPathV { branch: Seq::empty(), events: Seq::empty() },
            is_initial_input: true,
        };
        let more = found.push(state);
        assert(bare_states(more) =~= more) by {
            assert forall|i: int| 0 <= i < more.len() implies bare_states(more)[i] == more[i] by {
                if i < found.len() {
                    assert(bare_states(found)[i] == found[i]);
                }
            }
        }
        lemma_initial(initial, more, from + 1);
    }
}

proof fn lemma_merged(
    leaves: Seq<ExecutionLeafV>,
    seen: Seq<(TermV, Seq<PredicateV>)>,
    found: Seq<ExecutionLeafV>,
    from: int,
)
    requires
        0 <= from,
    ensures
        merged_from(bare_leaves(leaves), seen, bare_leaves(found), from) == bare_leaves(
            merged_from(leaves, seen, found, from),
        ),
    decreases leaves.len() - from,
{
    if from < leaves.len() {
        let leaf = leaves[from];
        assert(bare_leaves(leaves)[from] == bare_leaf(leaf));
        assert(bare_leaves(found.push(leaf)) =~= bare_leaves(found).push(bare_leaf(leaf)));
        assert(configuration_of(bare_leaf(leaf)) == configuration_of(leaf));
        if stands_for_none(leaf) {
            lemma_merged(leaves, seen, found.push(leaf), from + 1);
        } else if seen.contains(configuration_of(leaf)) {
            lemma_merged(leaves, seen, found, from + 1);
        } else {
            lemma_merged(
                leaves,
                seen.push(configuration_of(leaf)),
                found.push(leaf),
                from + 1,
            );
        }
    }
}

/// An execution that is observed has the effects and the leaves of one that is not, but for what
/// was observed: pattern, depth, trace and reason of every leaf are the same.
pub proof fn law_observing_only_adds<'a, K: Kernel, S: SmtSolver>(
    config: ExecutionConfig<'a, K, S>,
    initial: Seq<PatternV>,
)
    ensures
        ({
            let observed = result_of(executed(config, initial));
            let plain = result_of(executed(unobserved(config), initial));
            &&& plain.effects == observed.effects
            &&& bare_leaves(plain.leaves) == bare_leaves(observed.leaves)
            &&& plain.leaves.len() == observed.leaves.len()
            &&& forall|i: int|
                0 <= i < plain.leaves.len() ==> (#[trigger] plain.leaves[i]).pattern
                    == observed.leaves[i].pattern && plain.leaves[i].depth
                    == observed.leaves[i].depth && plain.leaves[i].trace
                    == observed.leaves[i].trace && plain.leaves[i].halt_reason
                    == observed.leaves[i].halt_reason
            &&& status_of(executed(unobserved(config), initial)) == status_of(
                executed(config, initial),
            )
        }),
{
    let start = machine_for(config, initial);
    let other = machine_for(unobserved(config), initial);
    let pending = initial_states(initial, Seq::empty(), 0);
    assert(bare_states(Seq::empty()) =~= Seq::empty());
    assert(bare_leaves(Seq::empty()) =~= Seq::empty());
    lemma_initial(initial, Seq::empty(), 0);
    lemma_at_breadth_bound(pending, Seq::empty(), 0);
    assert(bare(start) == other);
    lemma_run(config, start, WORK as nat);
    let observed = executed(config, initial).leaves.retained;
    let plain = executed(unobserved(config), initial).leaves.retained;
    assert(plain == bare_leaves(observed));
    lemma_within_depth(observed, observed.len() as int);
    assert(selected(plain) == bare_leaves(selected(observed)));
    lemma_merged(selected(observed), Seq::empty(), Seq::empty(), 0);
    let left = merged(selected(plain));
    let right = merged(selected(observed));
    assert(left == bare_leaves(right));
    assert(bare_leaves(left) =~= left);
    assert forall|i: int| 0 <= i < left.len() implies (#[trigger] left[i]) == bare_leaf(
        right[i],
    ) by {}
}

} // verus!
