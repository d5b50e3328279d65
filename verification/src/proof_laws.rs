//! What holds of every proof.

use vstd::prelude::*;
use crate::claims::{ClaimApplicationV, ReachabilityClaimV};
use crate::execution_parts::with_simplifications;
use crate::execution_types::{StepTimeoutMode, TraceEntryV, TraceKind};
use crate::implication::ImplicationChecker;
use crate::kernel::Kernel;
use crate::model::deep;
use crate::pattern::PatternV;
use crate::proof_types::{
    counterexamples, proven, status_of, ProofErrorV, ProofLeafOutcomeV, ProofLeafV, ProofOptions,
    ProofResultV, ProofStateV,
};
use crate::reach::{
    advanced, claim_proved, claimed_states, destination_remainder, ended, frontier_extended,
    machine_for, not_at_destination, recorded, result_of, rewrite_taken, rewritten_states, run,
    state_left, state_simplified, states_at_limit, timed_out, trivial_leaf, trivial_recorded,
    DoubtsV, ProofConfig, ProofMachineV, ProofPhaseV, ProofProgressV, PROOF_WORK,
};
use crate::rewrite_types::{AppliedRuleV, RemainderBranchV, RewriteResultV, TrivialApplicationV};
use crate::solver::SmtSolver;

verus! {

// ---------------------------------------------------------------------------------------------
// Traces
// ---------------------------------------------------------------------------------------------
/// The number of steps, by rules or by claims, among the first `count` entries.
pub open spec fn proof_steps(trace: Seq<TraceEntryV>, count: int) -> nat
    decreases count,
{
    if count <= 0 {
        0
    } else {
        proof_steps(trace, count - 1) + if trace[count - 1].kind is Rewrite || trace[count
            - 1].kind is Claim {
            1nat
        } else {
            0nat
        }
    }
}

/// Whether a rule was applied among the first `count` entries.
pub open spec fn rewritten_before(trace: Seq<TraceEntryV>, count: int) -> bool {
    exists|i: int| 0 <= i < count && (#[trigger] trace[i]).kind is Rewrite
}

/// Whether no claim was used before a rule was applied.
pub open spec fn claims_guarded(trace: Seq<TraceEntryV>) -> bool {
    forall|i: int|
        0 <= i < trace.len() && (#[trigger] trace[i]).kind is Claim ==> rewritten_before(trace, i)
}

/// Whether the depth is the number of steps in the trace and within the bound, and no claim was
/// used before a rule was applied.
pub open spec fn well_traced(options: ProofOptions, trace: Seq<TraceEntryV>, depth: u64) -> bool {
    &&& proof_steps(trace, trace.len() as int) == depth
    &&& depth <= options.max_depth
    &&& claims_guarded(trace)
}

/// [`well_traced`], and at every depth but the first a rule was applied.
spec fn sound(options: ProofOptions, trace: Seq<TraceEntryV>, depth: u64) -> bool {
    well_traced(options, trace, depth) && (depth > 0 ==> rewritten_before(
        trace,
        trace.len() as int,
    ))
}

proof fn lemma_steps_pushed(trace: Seq<TraceEntryV>, entry: TraceEntryV, count: int)
    requires
        0 <= count <= trace.len(),
    ensures
        proof_steps(trace.push(entry), count) == proof_steps(trace, count),
    decreases count,
{
    if count > 0 {
        lemma_steps_pushed(trace, entry, count - 1);
    }
}

proof fn lemma_pushed(
    options: ProofOptions,
    trace: Seq<TraceEntryV>,
    depth: u64,
    entry: TraceEntryV,
)
    requires
        sound(options, trace, depth),
    ensures
        entry.kind is Simplification || entry.kind is Remainder ==> sound(
            options,
            trace.push(entry),
            depth,
        ),
        (entry.kind is Rewrite || (entry.kind is Claim && depth > 0)) && depth < options.max_depth
            ==> sound(options, trace.push(entry), (depth + 1) as u64),
{
    let more = trace.push(entry);
    let length = trace.len() as int;
    lemma_steps_pushed(trace, entry, length);
    assert(proof_steps(more, length + 1) == proof_steps(more, length) + if entry.kind is Rewrite
        || entry.kind is Claim {
        1nat
    } else {
        0nat
    });
    assert forall|count: int| 0 <= count <= length && #[trigger] rewritten_before(
        trace,
        count,
    ) implies rewritten_before(more, count) by {
        let i = choose|i: int| 0 <= i < count && (#[trigger] trace[i]).kind is Rewrite;
        assert(more[i].kind is Rewrite);
    }
    if rewritten_before(trace, length) {
        let i = choose|i: int| 0 <= i < length && (#[trigger] trace[i]).kind is Rewrite;
        assert(more[i].kind is Rewrite);
        assert(rewritten_before(more, length + 1));
    }
    if entry.kind is Rewrite {
        assert(more[length].kind is Rewrite);
        assert(rewritten_before(more, length + 1));
    }
    assert forall|i: int| 0 <= i < length && (#[trigger] more[i]).kind is Claim implies
        rewritten_before(more, i) by {
        assert(trace[i].kind is Claim);
        assert(rewritten_before(trace, i));
    }
}

proof fn lemma_simplified(
    options: ProofOptions,
    trace: Seq<TraceEntryV>,
    depth: u64,
    rules: Seq<Seq<char>>,
    from: int,
)
    requires
        sound(options, trace, depth),
    ensures
        sound(options, with_simplifications(trace, depth, rules, from), depth),
    decreases rules.len() - from,
{
    if from < rules.len() {
        let entry = TraceEntryV {
            depth,
            kind: TraceKind::Simplification,
            label: None,
            unique_id: rules[from],
        };
        lemma_pushed(options, trace, depth, entry);
        lemma_simplified(options, trace.push(entry), depth, rules, from + 1);
    }
}

// ---------------------------------------------------------------------------------------------
// Machines
// ---------------------------------------------------------------------------------------------
spec fn sound_state(options: ProofOptions, state: ProofStateV) -> bool {
    sound(options, state.trace, state.depth)
}

spec fn sound_states(options: ProofOptions, states: Seq<ProofStateV>) -> bool {
    forall|i: int| 0 <= i < states.len() ==> sound_state(options, #[trigger] states[i])
}

/// Whether every leaf is traced well.
pub open spec fn sound_leaves(options: ProofOptions, leaves: Seq<ProofLeafV>) -> bool {
    forall|i: int|
        0 <= i < leaves.len() ==> well_traced(options, (#[trigger] leaves[i]).trace, leaves[i].depth)
}

spec fn sound_progress(options: ProofOptions, progress: ProofProgressV) -> bool {
    sound_states(options, progress.pending) && sound_leaves(options, progress.leaves)
}

spec fn sound_machine(options: ProofOptions, machine: ProofMachineV) -> bool {
    &&& sound_progress(options, machine.progress)
    &&& match machine.phase {
        ProofPhaseV::Waiting => true,
        ProofPhaseV::Constrained { state, .. } => sound_state(options, state),
        ProofPhaseV::Simplified { state, .. } => sound_state(options, state),
        ProofPhaseV::Implied { state, .. } => sound_state(options, state),
        ProofPhaseV::Claimed { state, .. } => sound_state(options, state) && 0 < state.depth
            < options.max_depth,
        ProofPhaseV::Rewritten { state, .. } => sound_state(options, state) && state.depth
            < options.max_depth,
        ProofPhaseV::Finished(Ok(result)) => sound_leaves(options, result.leaves),
        ProofPhaseV::Finished(Err(_)) => true,
    }
}

proof fn lemma_states_push(options: ProofOptions, states: Seq<ProofStateV>, state: ProofStateV)
    requires
        sound_states(options, states),
        sound_state(options, state),
    ensures
        sound_states(options, states.push(state)),
{
    let more = states.push(state);
    assert forall|i: int| 0 <= i < more.len() implies sound_state(options, #[trigger] more[i]) by {
        if i < states.len() {
            assert(more[i] == states[i]);
        }
    }
}

proof fn lemma_leaves_push(options: ProofOptions, leaves: Seq<ProofLeafV>, leaf: ProofLeafV)
    requires
        sound_leaves(options, leaves),
        well_traced(options, leaf.trace, leaf.depth),
    ensures
        sound_leaves(options, leaves.push(leaf)),
{
    let more = leaves.push(leaf);
    assert forall|i: int| 0 <= i < more.len() implies well_traced(
        options,
        (#[trigger] more[i]).trace,
        more[i].depth,
    ) by {
        if i < leaves.len() {
            assert(more[i] == leaves[i]);
        }
    }
}

proof fn lemma_recorded(options: ProofOptions, progress: ProofProgressV, leaf: ProofLeafV)
    requires
        sound_progress(options, progress),
        well_traced(options, leaf.trace, leaf.depth),
    ensures
        sound_machine(options, recorded(options, progress, leaf)),
{
    lemma_leaves_push(options, progress.leaves, leaf);
}

proof fn lemma_states_at_limit(
    options: ProofOptions,
    states: Seq<ProofStateV>,
    found: Seq<ProofLeafV>,
    from: int,
)
    requires
        sound_states(options, states),
        sound_leaves(options, found),
        0 <= from,
    ensures
        sound_leaves(options, states_at_limit(states, found, from)),
    decreases states.len() - from,
{
    if from < states.len() {
        let leaf = states[from].leaf(ProofLeafOutcomeV::BreadthBound);
        lemma_leaves_push(options, found, leaf);
        lemma_states_at_limit(options, states, found.push(leaf), from + 1);
    }
}

proof fn lemma_frontier(
    options: ProofOptions,
    progress: ProofProgressV,
    pending: Seq<ProofStateV>,
    left: Option<ProofStateV>,
)
    requires
        sound_progress(options, progress),
        sound_states(options, pending),
        left is Some ==> sound_state(options, left->0),
    ensures
        sound_machine(options, frontier_extended(options, progress, pending, left)),
        sound_progress(options, frontier_extended(options, progress, pending, left).progress),
{
    lemma_states_at_limit(options, pending, progress.leaves, 0);
    if let Some(state) = left {
        lemma_states_push(options, pending, state);
        lemma_states_at_limit(options, pending.push(state), progress.leaves, 0);
    }
}

proof fn lemma_remaining(options: ProofOptions, state: ProofStateV, remainder: RemainderBranchV)
    requires
        sound_state(options, state),
    ensures
        sound_state(options, state.remaining(remainder)),
{
    let next = state.remaining(remainder);
    lemma_pushed(options, state.trace, state.depth, next.trace.last());
    assert(next.trace == state.trace.push(next.trace.last()));
}

proof fn lemma_stepped_to(
    options: ProofOptions,
    state: ProofStateV,
    pattern: PatternV,
    kind: TraceKind,
    label: Option<Seq<char>>,
    unique_id: Seq<char>,
)
    requires
        sound_state(options, state),
        state.depth < options.max_depth,
        kind is Rewrite || (kind is Claim && state.depth > 0),
    ensures
        sound_state(options, state.stepped_to(pattern, kind, label, unique_id)),
{
    let next = state.stepped_to(pattern, kind, label, unique_id);
    lemma_pushed(options, state.trace, state.depth, next.trace.last());
    assert(next.trace == state.trace.push(next.trace.last()));
}

proof fn lemma_claimed_states(
    options: ProofOptions,
    state: ProofStateV,
    claim: ReachabilityClaimV,
    patterns: Seq<PatternV>,
    found: Seq<ProofStateV>,
    from: int,
)
    requires
        sound_state(options, state),
        0 < state.depth < options.max_depth,
        sound_states(options, found),
        0 <= from,
    ensures
        sound_states(options, claimed_states(state, claim, patterns, found, from)),
    decreases patterns.len() - from,
{
    if from < patterns.len() {
        let label = claim.attributes.label;
        let id = claim.attributes.unique_id;
        lemma_stepped_to(options, state, patterns[from], TraceKind::Claim, label, id);
        let next = state.stepped_to(patterns[from], TraceKind::Claim, label, id);
        lemma_states_push(options, found, next);
        lemma_claimed_states(options, state, claim, patterns, found.push(next), from + 1);
    }
}

proof fn lemma_rewritten_states(
    options: ProofOptions,
    state: ProofStateV,
    branches: Seq<AppliedRuleV>,
    found: Seq<ProofStateV>,
    from: int,
)
    requires
        sound_state(options, state),
        state.depth < options.max_depth,
        sound_states(options, found),
        0 <= from,
    ensures
        sound_states(options, rewritten_states(state, branches, found, from)),
    decreases branches.len() - from,
{
    if from < branches.len() {
        let applied = branches[from];
        lemma_stepped_to(
            options,
            state,
            applied.pattern,
            TraceKind::Rewrite,
            applied.label,
            applied.unique_id,
        );
        lemma_states_push(options, found, state.rewritten(applied));
        lemma_rewritten_states(
            options,
            state,
            branches,
            found.push(state.rewritten(applied)),
            from + 1,
        );
    }
}

proof fn lemma_trivial_recorded(
    options: ProofOptions,
    machine: ProofMachineV,
    state: ProofStateV,
    trivial: Seq<TrivialApplicationV>,
    from: int,
)
    requires
        sound_machine(options, machine),
        sound_state(options, state),
        state.depth < options.max_depth,
        0 <= from,
    ensures
        sound_machine(options, trivial_recorded(options, machine, state, trivial, from)),
    decreases trivial.len() - from,
{
    if from < trivial.len() && !(machine.phase is Finished) {
        let leaf = trivial_leaf(options, state, trivial[from]);
        let pattern = leaf.pattern;
        lemma_stepped_to(
            options,
            state,
            pattern,
            TraceKind::Rewrite,
            trivial[from].label,
            trivial[from].rule_id,
        );
        lemma_recorded(options, machine.progress, leaf);
        lemma_trivial_recorded(
            options,
            recorded(options, machine.progress, leaf),
            state,
            trivial,
            from + 1,
        );
    }
}

proof fn lemma_rewrite_taken(
    options: ProofOptions,
    progress: ProofProgressV,
    state: ProofStateV,
    doubts: DoubtsV,
    result: RewriteResultV,
)
    requires
        sound_progress(options, progress),
        sound_state(options, state),
        state.depth < options.max_depth,
    ensures
        sound_machine(options, rewrite_taken(options, progress, state, doubts, result)),
{
    match result {
        RewriteResultV::Finished(applied) => {
            lemma_rewritten_states(options, state, seq![applied], progress.pending, 0);
            lemma_stepped_to(
                options,
                state,
                applied.pattern,
                TraceKind::Rewrite,
                applied.label,
                applied.unique_id,
            );
            lemma_states_push(options, progress.pending, state.rewritten(applied));
            lemma_frontier(
                options,
                progress,
                progress.pending.push(state.rewritten(applied)),
                None,
            );
        },
        RewriteResultV::Branch { branches, remainder, trivial, .. } => {
            lemma_rewritten_states(options, state, branches, progress.pending, 0);
            if let Some(remainder) = remainder {
                lemma_remaining(options, state, remainder);
            }
            let pending = rewritten_states(state, branches, progress.pending, 0);
            lemma_frontier(options, progress, pending, state_left(state, remainder));
            lemma_trivial_recorded(
                options,
                frontier_extended(options, progress, pending, state_left(state, remainder)),
                state,
                trivial,
                0,
            );
        },
        RewriteResultV::Trivial(_) => {
            lemma_stepped_to(
                options,
                state,
                state.pattern,
                TraceKind::Rewrite,
                None,
                "trivial"@,
            );
            lemma_leaves_all(options, progress);
        },
        _ => {
            lemma_leaves_all(options, progress);
        },
    }
}

/// Whatever leaf is recorded, its trace decides.
proof fn lemma_leaves_all(options: ProofOptions, progress: ProofProgressV)
    requires
        sound_progress(options, progress),
    ensures
        forall|leaf: ProofLeafV|
            well_traced(options, leaf.trace, leaf.depth) ==> sound_machine(
                options,
                #[trigger] recorded(options, progress, leaf),
            ),
{
    assert forall|leaf: ProofLeafV| well_traced(options, leaf.trace, leaf.depth) implies sound_machine(
        options,
        #[trigger] recorded(options, progress, leaf),
    ) by {
        lemma_recorded(options, progress, leaf);
    }
}

proof fn lemma_not_at_destination<'a, K: Kernel, S: SmtSolver, C: ImplicationChecker<K, S>>(
    config: ProofConfig<'a, K, S, C>,
    progress: ProofProgressV,
    state: ProofStateV,
    doubt: bool,
)
    requires
        sound_progress(config.options, progress),
        sound_state(config.options, state),
    ensures
        sound_machine(config.options, not_at_destination(config, progress, state, doubt)),
{
    lemma_leaves_all(config.options, progress);
}

proof fn lemma_advanced<'a, K: Kernel, S: SmtSolver, C: ImplicationChecker<K, S>>(
    config: ProofConfig<'a, K, S, C>,
    machine: ProofMachineV,
)
    requires
        sound_machine(config.options, machine),
    ensures
        sound_machine(config.options, advanced(config, machine)),
{
    reveal(advanced);
    let options = config.options;
    let progress = machine.progress;
    lemma_leaves_all(options, progress);
    match machine.phase {
        ProofPhaseV::Waiting => {
            let next = advanced(config, machine).progress.pending;
            assert(sound_states(options, next)) by {
                if progress.pending.len() > 0 {
                    assert forall|i: int| 0 <= i < next.len() implies sound_state(
                        options,
                        #[trigger] next[i],
                    ) by {
                        assert(next[i] == progress.pending[i] || next[i] == progress.pending[i
                            + 1]);
                    }
                }
            }
        },
        ProofPhaseV::Constrained { state, outcome } => {},
        ProofPhaseV::Simplified { state, outcome } => {
            if let Ok(result) = outcome {
                lemma_simplified(options, state.trace, state.depth, result.applied_rules, 0);
                lemma_not_at_destination(
                    config,
                    progress,
                    state_simplified(state, result),
                    false,
                );
            }
        },
        ProofPhaseV::Implied { state, outcome } => {
            lemma_not_at_destination(config, progress, state, false);
            lemma_not_at_destination(config, progress, state, true);
            if let Ok(implication) = outcome {
                if let Some(condition) = implication.condition {
                    let remainder = destination_remainder(config.claim@, state.pattern, condition);
                    lemma_remaining(options, state, remainder);
                    lemma_not_at_destination(config, progress, state.remaining(remainder), false);
                }
            }
        },
        ProofPhaseV::Claimed { state, doubts, index, outcome } => {
            if let ClaimApplicationV::Applied { patterns, remainder } = outcome {
                let claim = deep(config.circularities@)[index as int];
                lemma_claimed_states(options, state, claim, patterns, progress.pending, 0);
                if let Some(remainder) = remainder {
                    lemma_remaining(options, state, remainder);
                }
                lemma_frontier(
                    options,
                    progress,
                    claimed_states(state, claim, patterns, progress.pending, 0),
                    state_left(state, remainder),
                );
            }
        },
        ProofPhaseV::Rewritten { state, doubts, result } => {
            lemma_rewrite_taken(options, progress, state, doubts, result);
        },
        ProofPhaseV::Finished(_) => {},
    }
}

proof fn lemma_run<'a, K: Kernel, S: SmtSolver, C: ImplicationChecker<K, S>>(
    config: ProofConfig<'a, K, S, C>,
    machine: ProofMachineV,
    fuel: nat,
)
    requires
        sound_machine(config.options, machine),
    ensures
        sound_machine(config.options, run(config, machine, fuel)),
    decreases fuel,
{
    if fuel > 0 && !(machine.phase is Finished) {
        lemma_advanced(config, machine);
        lemma_run(config, advanced(config, machine), (fuel - 1) as nat);
    }
}

/// On the way to every leaf of a proof no claim is used before a rule is applied; and the depth of
/// a leaf is the number of rules and claims on the way, within the bound.
pub proof fn law_claims_are_guarded<'a, K: Kernel, S: SmtSolver, C: ImplicationChecker<K, S>>(
    config: ProofConfig<'a, K, S, C>,
)
    ensures
        match claim_proved(config) {
            Ok(result) => sound_leaves(config.options, result.leaves),
            Err(_) => true,
        },
{
    let start = machine_for(config);
    assert(sound_machine(config.options, start));
    lemma_run(config, start, PROOF_WORK as nat);
}

/// The number of leaves among the first `count` that are not proven, but for those that a bound on
/// the breadth has cut off.
pub open spec fn collected(leaves: Seq<ProofLeafV>, count: int) -> nat
    decreases count,
{
    if count <= 0 {
        0
    } else {
        collected(leaves, count - 1) + if proven(leaves[count - 1]) || leaves[count
            - 1].outcome is BreadthBound {
            0nat
        } else {
            1nat
        }
    }
}

proof fn lemma_collected(leaves: Seq<ProofLeafV>, count: int)
    requires
        0 <= count <= leaves.len(),
    ensures
        collected(leaves, count) <= counterexamples(leaves, count),
    decreases count,
{
    if count > 0 {
        lemma_collected(leaves, count - 1);
    }
}

proof fn lemma_collected_pushed(leaves: Seq<ProofLeafV>, leaf: ProofLeafV, count: int)
    requires
        0 <= count <= leaves.len(),
    ensures
        collected(leaves.push(leaf), count) == collected(leaves, count),
        counterexamples(leaves.push(leaf), count) == counterexamples(leaves, count),
    decreases count,
{
    if count > 0 {
        lemma_collected_pushed(leaves, leaf, count - 1);
    }
}

proof fn lemma_collected_at_limit(states: Seq<ProofStateV>, found: Seq<ProofLeafV>, from: int)
    requires
        0 <= from,
    ensures
        ({
            let leaves = states_at_limit(states, found, from);
            collected(leaves, leaves.len() as int) == collected(found, found.len() as int)
        }),
    decreases states.len() - from,
{
    if from < states.len() {
        let leaf = states[from].leaf(ProofLeafOutcomeV::BreadthBound);
        lemma_collected_pushed(found, leaf, found.len() as int);
        lemma_collected_at_limit(states, found.push(leaf), from + 1);
    }
}

/// Whether a machine has not collected too many counterexamples, and fewer than asked for where it
/// goes on.
spec fn moderate(options: ProofOptions, machine: ProofMachineV) -> bool {
    match machine.phase {
        ProofPhaseV::Finished(Ok(result)) => collected(
            result.leaves,
            result.leaves.len() as int,
        ) <= options.max_counterexamples,
        ProofPhaseV::Finished(Err(_)) => true,
        _ => moderate_progress(options, machine.progress),
    }
}

spec fn moderate_progress(options: ProofOptions, progress: ProofProgressV) -> bool {
    counterexamples(progress.leaves, progress.leaves.len() as int) < options.max_counterexamples
}

proof fn lemma_recorded_moderate(options: ProofOptions, progress: ProofProgressV)
    requires
        moderate_progress(options, progress),
    ensures
        forall|leaf: ProofLeafV| moderate(options, #[trigger] recorded(options, progress, leaf)),
{
    assert forall|leaf: ProofLeafV| moderate(
        options,
        #[trigger] recorded(options, progress, leaf),
    ) by {
        let more = progress.leaves.push(leaf);
        lemma_collected_pushed(progress.leaves, leaf, progress.leaves.len() as int);
        lemma_collected(more, more.len() as int);
        assert(counterexamples(more, more.len() as int) <= counterexamples(
            progress.leaves,
            progress.leaves.len() as int,
        ) + 1);
    }
}

proof fn lemma_frontier_moderate(
    options: ProofOptions,
    progress: ProofProgressV,
    pending: Seq<ProofStateV>,
    left: Option<ProofStateV>,
)
    requires
        moderate_progress(options, progress),
    ensures
        moderate(options, frontier_extended(options, progress, pending, left)),
        moderate(options, ended(progress)),
{
    lemma_collected(progress.leaves, progress.leaves.len() as int);
    lemma_collected_at_limit(pending, progress.leaves, 0);
    if let Some(state) = left {
        lemma_collected_at_limit(pending.push(state), progress.leaves, 0);
    }
}

proof fn lemma_trivial_moderate(
    options: ProofOptions,
    machine: ProofMachineV,
    state: ProofStateV,
    trivial: Seq<TrivialApplicationV>,
    from: int,
)
    requires
        moderate(options, machine),
        0 <= from,
    ensures
        moderate(options, trivial_recorded(options, machine, state, trivial, from)),
    decreases trivial.len() - from,
{
    if from < trivial.len() && !(machine.phase is Finished) {
        let leaf = trivial_leaf(options, state, trivial[from]);
        lemma_recorded_moderate(options, machine.progress);
        lemma_trivial_moderate(
            options,
            recorded(options, machine.progress, leaf),
            state,
            trivial,
            from + 1,
        );
    }
}

proof fn lemma_advanced_moderate<'a, K: Kernel, S: SmtSolver, C: ImplicationChecker<K, S>>(
    config: ProofConfig<'a, K, S, C>,
    machine: ProofMachineV,
)
    requires
        moderate(config.options, machine),
    ensures
        moderate(config.options, advanced(config, machine)),
{
    reveal(advanced);
    let options = config.options;
    let progress = machine.progress;
    if !(machine.phase is Finished) {
        lemma_recorded_moderate(options, progress);
        lemma_frontier_moderate(options, progress, progress.pending, None);
        match machine.phase {
            ProofPhaseV::Claimed { state, doubts, index, outcome } => {
                if let ClaimApplicationV::Applied { patterns, remainder } = outcome {
                    let claim = deep(config.circularities@)[index as int];
                    lemma_frontier_moderate(
                        options,
                        progress,
                        claimed_states(state, claim, patterns, progress.pending, 0),
                        state_left(state, remainder),
                    );
                }
            },
            ProofPhaseV::Rewritten { state, doubts, result } => match result {
                RewriteResultV::Finished(applied) => {
                    lemma_frontier_moderate(
                        options,
                        progress,
                        progress.pending.push(state.rewritten(applied)),
                        None,
                    );
                },
                RewriteResultV::Branch { branches, remainder, trivial, .. } => {
                    let pending = rewritten_states(state, branches, progress.pending, 0);
                    let left = state_left(state, remainder);
                    lemma_frontier_moderate(options, progress, pending, left);
                    lemma_trivial_moderate(
                        options,
                        frontier_extended(options, progress, pending, left),
                        state,
                        trivial,
                        0,
                    );
                },
                _ => {},
            },
            _ => {},
        }
    }
}

proof fn lemma_run_moderate<'a, K: Kernel, S: SmtSolver, C: ImplicationChecker<K, S>>(
    config: ProofConfig<'a, K, S, C>,
    machine: ProofMachineV,
    fuel: nat,
)
    requires
        moderate(config.options, machine),
    ensures
        moderate(config.options, run(config, machine, fuel)),
    decreases fuel,
{
    if fuel > 0 && !(machine.phase is Finished) {
        lemma_advanced_moderate(config, machine);
        lemma_run_moderate(config, advanced(config, machine), (fuel - 1) as nat);
    }
}

/// A proof collects no more counterexamples than asked for.
pub proof fn law_counterexamples_within_limit<
    'a,
    K: Kernel,
    S: SmtSolver,
    C: ImplicationChecker<K, S>,
>(config: ProofConfig<'a, K, S, C>)
    ensures
        match claim_proved(config) {
            Ok(result) => collected(result.leaves, result.leaves.len() as int)
                <= config.options.max_counterexamples,
            Err(_) => true,
        },
{
    let start = machine_for(config);
    if config.options.max_counterexamples > 0 && config.claim@.attributes.trusted {
        assert(collected(start.phase->Finished_0->Ok_0.leaves, 0) == 0);
        assert(collected(start.phase->Finished_0->Ok_0.leaves, 1) == 0);
    }
    lemma_run_moderate(config, start, PROOF_WORK as nat);
    let last = run(config, start, PROOF_WORK as nat);
    if !(last.phase is Finished) {
        lemma_collected(last.progress.leaves, last.progress.leaves.len() as int);
    }
}

/// Whether a leaf without an instance stands where that is a counterexample: behind the start of a
/// proof that does not allow it.
pub open spec fn vacuity_permitted(options: ProofOptions, leaf: ProofLeafV) -> bool {
    leaf.outcome is Vacuous || leaf.outcome is Trivial ==> !options.allow_vacuous && !(leaf.depth
        == 0 && leaf.trace.len() == 0)
}

/// [`vacuity_permitted`] of every leaf.
pub open spec fn all_permitted(options: ProofOptions, leaves: Seq<ProofLeafV>) -> bool {
    forall|i: int| 0 <= i < leaves.len() ==> vacuity_permitted(options, #[trigger] leaves[i])
}

spec fn permitted_machine(options: ProofOptions, machine: ProofMachineV) -> bool {
    all_permitted(options, machine.progress.leaves) && match machine.phase {
        ProofPhaseV::Finished(Ok(result)) => all_permitted(options, result.leaves),
        _ => true,
    }
}

proof fn lemma_permitted_push(options: ProofOptions, leaves: Seq<ProofLeafV>, leaf: ProofLeafV)
    requires
        all_permitted(options, leaves),
        vacuity_permitted(options, leaf),
    ensures
        all_permitted(options, leaves.push(leaf)),
{
    let more = leaves.push(leaf);
    assert forall|i: int| 0 <= i < more.len() implies vacuity_permitted(
        options,
        #[trigger] more[i],
    ) by {
        if i < leaves.len() {
            assert(more[i] == leaves[i]);
        }
    }
}

proof fn lemma_recorded_permitted(options: ProofOptions, progress: ProofProgressV)
    requires
        all_permitted(options, progress.leaves),
    ensures
        forall|leaf: ProofLeafV|
            vacuity_permitted(options, leaf) ==> permitted_machine(
                options,
                #[trigger] recorded(options, progress, leaf),
            ),
{
    assert forall|leaf: ProofLeafV| vacuity_permitted(options, leaf) implies permitted_machine(
        options,
        #[trigger] recorded(options, progress, leaf),
    ) by {
        lemma_permitted_push(options, progress.leaves, leaf);
    }
}

proof fn lemma_limit_permitted(
    options: ProofOptions,
    states: Seq<ProofStateV>,
    found: Seq<ProofLeafV>,
    from: int,
)
    requires
        all_permitted(options, found),
        0 <= from,
    ensures
        all_permitted(options, states_at_limit(states, found, from)),
    decreases states.len() - from,
{
    if from < states.len() {
        let leaf = states[from].leaf(ProofLeafOutcomeV::BreadthBound);
        lemma_permitted_push(options, found, leaf);
        lemma_limit_permitted(options, states, found.push(leaf), from + 1);
    }
}

proof fn lemma_frontier_permitted(
    options: ProofOptions,
    progress: ProofProgressV,
    pending: Seq<ProofStateV>,
    left: Option<ProofStateV>,
)
    requires
        all_permitted(options, progress.leaves),
    ensures
        permitted_machine(options, frontier_extended(options, progress, pending, left)),
{
    lemma_limit_permitted(options, pending, progress.leaves, 0);
    if let Some(state) = left {
        lemma_limit_permitted(options, pending.push(state), progress.leaves, 0);
    }
}

proof fn lemma_trivial_permitted(
    options: ProofOptions,
    machine: ProofMachineV,
    state: ProofStateV,
    trivial: Seq<TrivialApplicationV>,
    from: int,
)
    requires
        permitted_machine(options, machine),
        0 <= from,
    ensures
        permitted_machine(options, trivial_recorded(options, machine, state, trivial, from)),
    decreases trivial.len() - from,
{
    if from < trivial.len() && !(machine.phase is Finished) {
        let leaf = trivial_leaf(options, state, trivial[from]);
        lemma_recorded_permitted(options, machine.progress);
        assert(vacuity_permitted(options, leaf));
        lemma_trivial_permitted(
            options,
            recorded(options, machine.progress, leaf),
            state,
            trivial,
            from + 1,
        );
    }
}

proof fn lemma_advanced_permitted<'a, K: Kernel, S: SmtSolver, C: ImplicationChecker<K, S>>(
    config: ProofConfig<'a, K, S, C>,
    machine: ProofMachineV,
)
    requires
        permitted_machine(config.options, machine),
    ensures
        permitted_machine(config.options, advanced(config, machine)),
{
    reveal(advanced);
    let options = config.options;
    let progress = machine.progress;
    lemma_recorded_permitted(options, progress);
    match machine.phase {
        ProofPhaseV::Claimed { state, doubts, index, outcome } => {
            if let ClaimApplicationV::Applied { patterns, remainder } = outcome {
                let claim = deep(config.circularities@)[index as int];
                lemma_frontier_permitted(
                    options,
                    progress,
                    claimed_states(state, claim, patterns, progress.pending, 0),
                    state_left(state, remainder),
                );
            }
        },
        ProofPhaseV::Rewritten { state, doubts, result } => match result {
            RewriteResultV::Finished(applied) => {
                lemma_frontier_permitted(
                    options,
                    progress,
                    progress.pending.push(state.rewritten(applied)),
                    None,
                );
            },
            RewriteResultV::Branch { branches, remainder, trivial, .. } => {
                let pending = rewritten_states(state, branches, progress.pending, 0);
                let left = state_left(state, remainder);
                lemma_frontier_permitted(options, progress, pending, left);
                lemma_trivial_permitted(
                    options,
                    frontier_extended(options, progress, pending, left),
                    state,
                    trivial,
                    0,
                );
            },
            _ => {},
        },
        _ => {},
    }
}

proof fn lemma_run_permitted<'a, K: Kernel, S: SmtSolver, C: ImplicationChecker<K, S>>(
    config: ProofConfig<'a, K, S, C>,
    machine: ProofMachineV,
    fuel: nat,
)
    requires
        permitted_machine(config.options, machine),
    ensures
        permitted_machine(config.options, run(config, machine, fuel)),
    decreases fuel,
{
    if fuel > 0 && !(machine.phase is Finished) {
        lemma_advanced_permitted(config, machine);
        lemma_run_permitted(config, advanced(config, machine), (fuel - 1) as nat);
    }
}

/// A state without an instance refutes a claim only behind the start of the proof, and only where
/// that is not allowed.
pub proof fn law_vacuous_leaves<'a, K: Kernel, S: SmtSolver, C: ImplicationChecker<K, S>>(
    config: ProofConfig<'a, K, S, C>,
)
    ensures
        match claim_proved(config) {
            Ok(result) => all_permitted(config.options, result.leaves),
            Err(_) => true,
        },
{
    lemma_run_permitted(config, machine_for(config), PROOF_WORK as nat);
}

/// Whether a result has the status that its leaves and the states left give it.
pub open spec fn accounted(result: ProofResultV) -> bool {
    result.status == status_of(result.leaves, result.unexplored_states)
}

/// Whether a machine that is done has the status that its leaves give it.
pub open spec fn accounted_machine(machine: ProofMachineV) -> bool {
    match machine.phase {
        ProofPhaseV::Finished(Ok(result)) => accounted(result),
        _ => true,
    }
}

proof fn lemma_trivial_accounted(
    options: ProofOptions,
    machine: ProofMachineV,
    state: ProofStateV,
    trivial: Seq<TrivialApplicationV>,
    from: int,
)
    requires
        accounted_machine(machine),
        0 <= from,
    ensures
        accounted_machine(trivial_recorded(options, machine, state, trivial, from)),
    decreases trivial.len() - from,
{
    if from < trivial.len() && !(machine.phase is Finished) {
        let leaf = trivial_leaf(options, state, trivial[from]);
        lemma_trivial_accounted(
            options,
            recorded(options, machine.progress, leaf),
            state,
            trivial,
            from + 1,
        );
    }
}

/// Work on a proof, and a timeout, keep the status that the leaves give.
pub proof fn law_accounted_machine<'a, K: Kernel, S: SmtSolver, C: ImplicationChecker<K, S>>(
    config: ProofConfig<'a, K, S, C>,
    machine: ProofMachineV,
    mode: StepTimeoutMode,
)
    requires
        accounted_machine(machine),
    ensures
        accounted_machine(advanced(config, machine)),
        accounted_machine(timed_out(machine, mode)),
        match result_of(machine) {
            Ok(result) => accounted(result),
            Err(_) => true,
        },
{
    reveal(advanced);
    let options = config.options;
    let progress = machine.progress;
    match machine.phase {
        ProofPhaseV::Rewritten { state, doubts, result } => match result {
            RewriteResultV::Branch { branches, remainder, trivial, .. } => {
                let pending = rewritten_states(state, branches, progress.pending, 0);
                let left = state_left(state, remainder);
                lemma_trivial_accounted(
                    options,
                    frontier_extended(options, progress, pending, left),
                    state,
                    trivial,
                    0,
                );
            },
            _ => {},
        },
        _ => {},
    }
}

proof fn lemma_run_accounted<'a, K: Kernel, S: SmtSolver, C: ImplicationChecker<K, S>>(
    config: ProofConfig<'a, K, S, C>,
    machine: ProofMachineV,
    fuel: nat,
)
    requires
        accounted_machine(machine),
    ensures
        accounted_machine(run(config, machine, fuel)),
    decreases fuel,
{
    if fuel > 0 && !(machine.phase is Finished) {
        law_accounted_machine(config, machine, StepTimeoutMode::MovingAverage);
        lemma_run_accounted(config, advanced(config, machine), (fuel - 1) as nat);
    }
}

/// The status of every proof is the one that its leaves and the states left give it.
pub proof fn law_status_of_proof<'a, K: Kernel, S: SmtSolver, C: ImplicationChecker<K, S>>(
    config: ProofConfig<'a, K, S, C>,
)
    ensures
        match claim_proved(config) {
            Ok(result) => accounted(result),
            Err(_) => true,
        },
{
    let start = machine_for(config);
    if config.options.max_counterexamples > 0 && config.claim@.attributes.trusted {
        let leaf = start.phase->Finished_0->Ok_0.leaves[0];
        assert(leaf.outcome is Trusted);
    }
    lemma_run_accounted(config, start, PROOF_WORK as nat);
    law_accounted_machine(
        config,
        run(config, start, PROOF_WORK as nat),
        StepTimeoutMode::MovingAverage,
    );
}

/// A claim that is trusted is proven without a step, where counterexamples are asked for.
pub proof fn law_trusted_claims_are_proven<'a, K: Kernel, S: SmtSolver, C: ImplicationChecker<K, S>>(
    config: ProofConfig<'a, K, S, C>,
)
    requires
        config.claim@.attributes.trusted,
        config.options.max_counterexamples > 0,
    ensures
        claim_proved(config) is Ok,
        claim_proved(config)->Ok_0.status is Proven,
        claim_proved(config)->Ok_0.explored_states == 0,
        claim_proved(config)->Ok_0.leaves.len() == 1,
        claim_proved(config)->Ok_0.leaves[0].outcome is Trusted,
{
}

/// A proof that asks for no counterexample is refused.
pub proof fn law_counterexamples_are_asked_for<
    'a,
    K: Kernel,
    S: SmtSolver,
    C: ImplicationChecker<K, S>,
>(config: ProofConfig<'a, K, S, C>)
    requires
        config.options.max_counterexamples == 0,
    ensures
        claim_proved(config) == Err::<ProofResultV, ProofErrorV>(
            ProofErrorV::ZeroCounterexampleLimit,
        ),
{
}

} // verus!
