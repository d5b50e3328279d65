//! A proof loses no case: every state that a step leads to is taken up before a claim is proven.

use vstd::prelude::*;
use crate::claims::{ClaimApplicationV, ReachabilityClaimV};
use crate::execution_types::TraceKind;
use crate::implication::{ImplicationChecker, ImplicationStatus};
use crate::index::{law_extension_contains, push_unique, unique_extension};
use crate::kernel::Kernel;
use crate::model::deep;
use crate::pattern::PatternV;
use crate::predicate::PredicateV;
use crate::proof_laws::law_status_of_proof;
use crate::proof_types::{
    disproves, proven, status_of, undecided_leaf, ProofLeafOutcomeV, ProofLeafV, ProofOptions,
    ProofStateV,
};
use crate::reach::{
    advanced, claim_proved, claimed_states, current_state, ended, frontier_extended, machine_for,
    recorded, rewritten_states, run, state_left, states_at_limit, trivial_leaf, trivial_recorded,
    ProofConfig, ProofMachineV, ProofPhaseV, ProofProgressV, PROOF_WORK,
};
use crate::rewrite_types::{AppliedRuleV, RemainderBranchV, RewriteResultV, TrivialApplicationV};
use crate::solver::{SatisfiabilityV, SmtErrorV, SmtSolver};
use crate::truth::conjunction_truth;

verus! {

// ---------------------------------------------------------------------------------------------
// Cases
// ---------------------------------------------------------------------------------------------
/// Whether a state with the given pattern, at the given depth, is among `states`.
pub open spec fn waits(states: Seq<ProofStateV>, pattern: PatternV, depth: u64) -> bool {
    exists|i: int|
        0 <= i < states.len() && (#[trigger] states[i]).pattern == pattern && states[i].depth
            == depth
}

/// The depth one step below `depth`, as far as depths are counted.
pub open spec fn one_below(depth: u64) -> u64 {
    if depth < u64::MAX {
        (depth + 1) as u64
    } else {
        depth
    }
}

/// Whether all states and leaves of `before` are in `after`.
pub open spec fn nothing_lost(before: ProofProgressV, after: ProofProgressV) -> bool {
    &&& before.pending.is_prefix_of(after.pending)
    &&& before.leaves.is_prefix_of(after.leaves)
}

/// Whether a proof ended because there are more states than are allowed at once.
pub open spec fn over_breadth(options: ProofOptions, machine: ProofMachineV) -> bool {
    &&& machine.phase is Finished
    &&& options.breadth_limit is Some
    &&& machine.progress.pending.len() > options.breadth_limit->0
}

/// Whether a case that a rule or a claim leaves is among the states, unless these are too many.
pub open spec fn left_waits(
    options: ProofOptions,
    machine: ProofMachineV,
    remainder: Option<RemainderBranchV>,
    depth: u64,
) -> bool {
    match remainder {
        Some(left) => waits(machine.progress.pending, left.pattern, depth) || over_breadth(
            options,
            machine,
        ),
        None => true,
    }
}

/// Whether exactly one leaf was added, for a state with the given pattern.
pub open spec fn one_leaf(
    before: Seq<ProofLeafV>,
    after: Seq<ProofLeafV>,
    pattern: PatternV,
) -> bool {
    &&& after.len() == before.len() + 1
    &&& before.is_prefix_of(after)
    &&& after.last().pattern == pattern
}

/// Whether there is a leaf for the case in which a rule has no result. It is a proven one only
/// where such cases are allowed.
pub open spec fn trivial_case_closed(
    options: ProofOptions,
    leaves: Seq<ProofLeafV>,
    state: ProofStateV,
    trivial: TrivialApplicationV,
) -> bool {
    exists|i: int|
        0 <= i < leaves.len() && is_trivial_leaf(options, #[trigger] leaves[i], state, trivial)
}

/// Whether `leaf` is one for the case of `state` in which a rule has no result.
pub open spec fn is_trivial_leaf(
    options: ProofOptions,
    leaf: ProofLeafV,
    state: ProofStateV,
    trivial: TrivialApplicationV,
) -> bool {
    &&& leaf.pattern.term == state.pattern.term
    &&& leaf.pattern.constraints.contains(trivial.applicability)
    &&& leaf.trace.len() > 0 && leaf.trace.last().unique_id == trivial.rule_id
    &&& proven(leaf) ==> options.allow_vacuous
}

// ---------------------------------------------------------------------------------------------
// Steps
// ---------------------------------------------------------------------------------------------
proof fn lemma_rewritten_states(
    state: ProofStateV,
    branches: Seq<AppliedRuleV>,
    found: Seq<ProofStateV>,
    from: int,
)
    requires
        0 <= from <= branches.len(),
    ensures
        found.is_prefix_of(rewritten_states(state, branches, found, from)),
        forall|i: int|
            from <= i < branches.len() ==> waits(
                rewritten_states(state, branches, found, from),
                (#[trigger] branches[i]).pattern,
                one_below(state.depth),
            ),
    decreases branches.len() - from,
{
    let all = rewritten_states(state, branches, found, from);
    if from < branches.len() {
        let next = state.rewritten(branches[from]);
        lemma_rewritten_states(state, branches, found.push(next), from + 1);
        assert(found.push(next)[found.len() as int] == next);
        assert(all[found.len() as int] == next);
        assert(waits(all, branches[from].pattern, one_below(state.depth)));
    }
}

proof fn lemma_claimed_states(
    state: ProofStateV,
    claim: ReachabilityClaimV,
    patterns: Seq<PatternV>,
    found: Seq<ProofStateV>,
    from: int,
)
    requires
        0 <= from <= patterns.len(),
    ensures
        found.is_prefix_of(claimed_states(state, claim, patterns, found, from)),
        forall|i: int|
            from <= i < patterns.len() ==> waits(
                claimed_states(state, claim, patterns, found, from),
                #[trigger] patterns[i],
                one_below(state.depth),
            ),
    decreases patterns.len() - from,
{
    let all = claimed_states(state, claim, patterns, found, from);
    if from < patterns.len() {
        let next = state.stepped_to(
            patterns[from],
            TraceKind::Claim,
            claim.attributes.label,
            claim.attributes.unique_id,
        );
        lemma_claimed_states(state, claim, patterns, found.push(next), from + 1);
        assert(found.push(next)[found.len() as int] == next);
        assert(all[found.len() as int] == next);
        assert(waits(all, patterns[from], one_below(state.depth)));
    }
}

proof fn lemma_waits_kept(
    fewer: Seq<ProofStateV>,
    more: Seq<ProofStateV>,
    pattern: PatternV,
    depth: u64,
)
    requires
        fewer.is_prefix_of(more),
        waits(fewer, pattern, depth),
    ensures
        waits(more, pattern, depth),
{
    let i: int = choose|i: int|
        0 <= i < fewer.len() && (#[trigger] fewer[i]).pattern == pattern && fewer[i].depth == depth;
    assert(more[i] == fewer[i]);
}

proof fn lemma_states_at_limit(states: Seq<ProofStateV>, found: Seq<ProofLeafV>, from: int)
    requires
        0 <= from,
    ensures
        found.is_prefix_of(states_at_limit(states, found, from)),
    decreases states.len() - from,
{
    if from < states.len() {
        lemma_states_at_limit(
            states,
            found.push(states[from].leaf(ProofLeafOutcomeV::BreadthBound)),
            from + 1,
        );
    }
}

proof fn lemma_frontier(
    options: ProofOptions,
    progress: ProofProgressV,
    pending: Seq<ProofStateV>,
    left: Option<ProofStateV>,
)
    requires
        progress.pending.is_prefix_of(pending),
    ensures
        ({
            let next = frontier_extended(options, progress, pending, left);
            &&& pending.is_prefix_of(next.progress.pending)
            &&& progress.leaves.is_prefix_of(next.progress.leaves)
            &&& left is Some ==> next.progress.pending.contains(left->0) || over_breadth(
                options,
                next,
            )
            &&& next.phase is Finished ==> over_breadth(options, next)
        }),
{
    lemma_states_at_limit(pending, progress.leaves, 0);
    if let Some(state) = left {
        lemma_states_at_limit(pending.push(state), progress.leaves, 0);
        assert(pending.push(state)[pending.len() as int] == state);
    }
}

proof fn lemma_trivial_recorded(
    options: ProofOptions,
    machine: ProofMachineV,
    state: ProofStateV,
    trivial: Seq<TrivialApplicationV>,
    from: int,
)
    requires
        0 <= from <= trivial.len(),
    ensures
        ({
            let next = trivial_recorded(options, machine, state, trivial, from);
            &&& next.progress.pending == machine.progress.pending
            &&& machine.progress.leaves.is_prefix_of(next.progress.leaves)
            &&& machine.phase is Finished ==> next == machine
            &&& forall|j: int|
                from <= j < trivial.len() ==> next.phase is Finished || trivial_case_closed(
                    options,
                    next.progress.leaves,
                    state,
                    #[trigger] trivial[j],
                )
        }),
    decreases trivial.len() - from,
{
    if from < trivial.len() && !(machine.phase is Finished) {
        let leaf = trivial_leaf(options, state, trivial[from]);
        let after = recorded(options, machine.progress, leaf);
        lemma_trivial_recorded(options, after, state, trivial, from + 1);
        let next = trivial_recorded(options, machine, state, trivial, from);
        let at = machine.progress.leaves.len() as int;
        assert(after.progress.leaves[at] == leaf);
        assert(next.progress.leaves[at] == leaf);
        assert(leaf.trace.len() > 0);
        assert(leaf.pattern.constraints.contains(trivial[from].applicability)) by {
            lemma_push_unique(state.pattern.constraints, trivial[from].applicability);
        }
        assert(is_trivial_leaf(options, next.progress.leaves[at], state, trivial[from]));
    }
}

proof fn lemma_push_unique(predicates: Seq<PredicateV>, predicate: PredicateV)
    ensures
        push_unique(predicates, predicate).contains(predicate),
{
    if !predicates.contains(predicate) {
        assert(predicates.push(predicate)[predicates.len() as int] == predicate);
    }
}

/// A rewrite step of a proof loses no case. There is a state behind it for each branch, one step
/// deeper, and one for what the rules leave, unless there are too many states; there is a leaf for
/// each rule without a result; and where there is no successor, there is one leaf for the state,
/// which is proven only where it has no instance and that is allowed.
pub proof fn law_rewrite_loses_no_case<'a, K: Kernel, S: SmtSolver, C: ImplicationChecker<K, S>>(
    config: ProofConfig<'a, K, S, C>,
    machine: ProofMachineV,
)
    requires
        machine.phase is Rewritten,
    ensures
        ({
            let next = advanced(config, machine);
            let before = machine.progress;
            let state = machine.phase->Rewritten_state;
            &&& nothing_lost(before, next.progress)
            &&& match machine.phase->Rewritten_result {
                RewriteResultV::Finished(applied) => waits(
                    next.progress.pending,
                    applied.pattern,
                    one_below(state.depth),
                ),
                RewriteResultV::Branch { branches, remainder, trivial, .. } => {
                    &&& forall|i: int|
                        0 <= i < branches.len() ==> waits(
                            next.progress.pending,
                            (#[trigger] branches[i]).pattern,
                            one_below(state.depth),
                        )
                    &&& left_waits(config.options, next, remainder, state.depth)
                    &&& forall|j: int|
                        0 <= j < trivial.len() ==> next.phase is Finished || trivial_case_closed(
                            config.options,
                            next.progress.leaves,
                            state,
                            #[trigger] trivial[j],
                        )
                },
                RewriteResultV::Stuck(_) => {
                    &&& one_leaf(before.leaves, next.progress.leaves, state.pattern)
                    &&& !proven(next.progress.leaves.last())
                },
                RewriteResultV::Trivial(_) => {
                    &&& one_leaf(before.leaves, next.progress.leaves, state.pattern)
                    &&& proven(next.progress.leaves.last()) ==> config.options.allow_vacuous
                },
                RewriteResultV::Vacuous(_) => {
                    &&& one_leaf(before.leaves, next.progress.leaves, state.pattern)
                    &&& proven(next.progress.leaves.last()) ==> config.options.allow_vacuous
                        || state.trace.len() == 0
                },
                RewriteResultV::Indeterminate { .. } => {
                    &&& one_leaf(before.leaves, next.progress.leaves, state.pattern)
                    &&& !proven(next.progress.leaves.last())
                },
            }
        }),
{
    reveal(advanced);
    let options = config.options;
    let progress = machine.progress;
    let state = machine.phase->Rewritten_state;
    match machine.phase->Rewritten_result {
        RewriteResultV::Finished(applied) => {
            let successor = state.rewritten(applied);
            let pending = progress.pending.push(successor);
            lemma_frontier(options, progress, pending, None);
            let next = frontier_extended(options, progress, pending, None);
            assert(pending[progress.pending.len() as int] == successor);
            assert(next.progress.pending[progress.pending.len() as int] == successor);
        },
        RewriteResultV::Branch { branches, remainder, trivial, .. } => {
            let pending = rewritten_states(state, branches, progress.pending, 0);
            let left = state_left(state, remainder);
            lemma_rewritten_states(state, branches, progress.pending, 0);
            lemma_frontier(options, progress, pending, left);
            let middle = frontier_extended(options, progress, pending, left);
            lemma_trivial_recorded(options, middle, state, trivial, 0);
            let next = trivial_recorded(options, middle, state, trivial, 0);
            assert forall|i: int| 0 <= i < branches.len() implies waits(
                next.progress.pending,
                (#[trigger] branches[i]).pattern,
                one_below(state.depth),
            ) by {
                lemma_waits_kept(
                    pending,
                    next.progress.pending,
                    branches[i].pattern,
                    one_below(state.depth),
                );
            }
            if let Some(rest) = remainder {
                if next.progress.pending.contains(left->0) {
                    let i: int = choose|i: int|
                        0 <= i < next.progress.pending.len() && next.progress.pending[i]
                            == left->0;
                    assert(next.progress.pending[i].pattern == rest.pattern);
                }
            }
        },
        _ => {},
    }
}

/// The application of a claim loses no case: there is a state for each of its destinations, one
/// step deeper, and one for what the claim leaves, unless there are too many states. A claim that
/// is passed over leaves the state at hand.
pub proof fn law_claim_loses_no_case<'a, K: Kernel, S: SmtSolver, C: ImplicationChecker<K, S>>(
    config: ProofConfig<'a, K, S, C>,
    machine: ProofMachineV,
)
    requires
        machine.phase is Claimed,
        machine.phase->Claimed_index < config.circularities@.len(),
    ensures
        ({
            let next = advanced(config, machine);
            let state = machine.phase->Claimed_state;
            &&& nothing_lost(machine.progress, next.progress)
            &&& match machine.phase->Claimed_outcome {
                ClaimApplicationV::Applied { patterns, remainder } => {
                    &&& forall|i: int|
                        0 <= i < patterns.len() ==> waits(
                            next.progress.pending,
                            #[trigger] patterns[i],
                            one_below(state.depth),
                        )
                    &&& left_waits(config.options, next, remainder, state.depth)
                },
                _ => current_state(next.phase) == Some(state) && next.progress.pending
                    == machine.progress.pending,
            }
        }),
{
    reveal(advanced);
    let options = config.options;
    let progress = machine.progress;
    let state = machine.phase->Claimed_state;
    let index = machine.phase->Claimed_index;
    if let ClaimApplicationV::Applied { patterns, remainder } = machine.phase->Claimed_outcome {
        let claim = deep(config.circularities@)[index as int];
        let pending = claimed_states(state, claim, patterns, progress.pending, 0);
        let left = state_left(state, remainder);
        lemma_claimed_states(state, claim, patterns, progress.pending, 0);
        lemma_frontier(options, progress, pending, left);
        let next = frontier_extended(options, progress, pending, left);
        assert forall|i: int| 0 <= i < patterns.len() implies waits(
            next.progress.pending,
            #[trigger] patterns[i],
            one_below(state.depth),
        ) by {
            lemma_waits_kept(
                pending,
                next.progress.pending,
                patterns[i],
                one_below(state.depth),
            );
        }
        if let Some(rest) = remainder {
            if next.progress.pending.contains(left->0) {
                let i: int = choose|i: int|
                    0 <= i < next.progress.pending.len() && next.progress.pending[i] == left->0;
                assert(next.progress.pending[i].pattern == rest.pattern);
            }
        }
    }
}

/// A waiting proof takes up one of its states, the first or the last as the order says, and ends
/// only where there is none.
pub proof fn law_states_are_taken_up<'a, K: Kernel, S: SmtSolver, C: ImplicationChecker<K, S>>(
    config: ProofConfig<'a, K, S, C>,
    machine: ProofMachineV,
)
    requires
        machine.phase is Waiting,
    ensures
        ({
            let next = advanced(config, machine);
            let pending = machine.progress.pending;
            let at = if config.options.search_order is BreadthFirst {
                0
            } else {
                pending.len() - 1
            };
            &&& next.progress.leaves == machine.progress.leaves
            &&& if pending.len() == 0 {
                next.phase is Finished && next.progress.pending.len() == 0
            } else {
                &&& next.phase is Constrained
                &&& next.phase->Constrained_state == pending[at]
                &&& next.progress.pending == pending.remove(at)
            }
        }),
{
    reveal(advanced);
}

/// Simplification keeps the state at hand: its term and its simplified constraints, and then its
/// simplified term with what was found on the way. A state becomes a leaf instead only where it
/// could not be simplified, which is no proof, or where it has no instance.
pub proof fn law_simplification_keeps_the_state<
    'a,
    K: Kernel,
    S: SmtSolver,
    C: ImplicationChecker<K, S>,
>(config: ProofConfig<'a, K, S, C>, machine: ProofMachineV)
    requires
        machine.phase is Constrained || machine.phase is Simplified,
    ensures
        ({
            let next = advanced(config, machine);
            let before = machine.progress;
            let after = next.progress;
            let leaf = after.leaves.last();
            &&& after.pending == before.pending
            &&& match machine.phase {
                ProofPhaseV::Constrained { state, outcome: Err(_) } => one_leaf(
                    before.leaves,
                    after.leaves,
                    state.pattern,
                ) && !proven(leaf),
                ProofPhaseV::Constrained { state, outcome: Ok(constraints) } => {
                    let pattern = PatternV { term: state.pattern.term, constraints };
                    if conjunction_truth(constraints) is False {
                        one_leaf(before.leaves, after.leaves, pattern)
                    } else {
                        &&& after.leaves == before.leaves
                        &&& next.phase is Simplified
                        &&& next.phase->Simplified_state.pattern == pattern
                        &&& next.phase->Simplified_state.depth == state.depth
                    }
                },
                ProofPhaseV::Simplified { state, outcome: Err(_) } => one_leaf(
                    before.leaves,
                    after.leaves,
                    state.pattern,
                ) && !proven(leaf),
                ProofPhaseV::Simplified { state, outcome: Ok(result) } => {
                    ||| after.leaves == before.leaves && current_state(next.phase) is Some && ({
                        let now = current_state(next.phase)->0.pattern;
                        &&& now.term == result.term
                        &&& forall|i: int|
                            0 <= i < state.pattern.constraints.len() ==> now.constraints.contains(
                                #[trigger] state.pattern.constraints[i],
                            )
                        &&& forall|i: int|
                            0 <= i < result.constraints.len() ==> now.constraints.contains(
                                #[trigger] result.constraints[i],
                            )
                    })
                    ||| after.leaves.len() == before.leaves.len() + 1 && leaf.pattern.term
                        == result.term && (leaf.outcome is DepthBound || conjunction_truth(
                        leaf.pattern.constraints,
                    ) is False || config.solver.satisfiability(
                        leaf.pattern.constraints,
                        Seq::empty(),
                    ) == Ok::<SatisfiabilityV, SmtErrorV>(
                        SatisfiabilityV::Unsat,
                    ))
                },
                _ => true,
            }
        }),
{
    reveal(advanced);
    if let ProofPhaseV::Simplified { state, outcome: Ok(result) } = machine.phase {
        let all = unique_extension(state.pattern.constraints, result.constraints);
        assert forall|i: int| 0 <= i < state.pattern.constraints.len() implies all.contains(
            #[trigger] state.pattern.constraints[i],
        ) by {
            law_extension_contains(
                state.pattern.constraints,
                result.constraints,
                0,
                state.pattern.constraints[i],
            );
        }
        assert forall|i: int| 0 <= i < result.constraints.len() implies all.contains(
            #[trigger] result.constraints[i],
        ) by {
            law_extension_contains(
                state.pattern.constraints,
                result.constraints,
                0,
                result.constraints[i],
            );
        }
    }
}

/// A leaf is proven only where the state at hand is an instance of the destination, or where it
/// has no instance and is the first one or that is allowed.
pub proof fn law_proven_leaves<'a, K: Kernel, S: SmtSolver, C: ImplicationChecker<K, S>>(
    config: ProofConfig<'a, K, S, C>,
    machine: ProofMachineV,
    at: int,
)
    requires
        machine.progress.leaves.len() <= at < advanced(config, machine).progress.leaves.len(),
        proven(advanced(config, machine).progress.leaves[at]),
    ensures
        ({
            let leaf = advanced(config, machine).progress.leaves[at];
            ||| config.options.allow_vacuous
            ||| leaf.depth == 0 && leaf.trace.len() == 0 && leaf.outcome->Proven_0.predicates
                == seq![PredicateV::False]
            ||| match machine.phase {
                ProofPhaseV::Implied { state, outcome: Ok(implication) } => {
                    &&& implication.status is Valid
                    &&& leaf.pattern == state.pattern
                },
                _ => false,
            }
        }),
{
    reveal(advanced);
    let options = config.options;
    let progress = machine.progress;
    if let ProofPhaseV::Rewritten { state, doubts, result } = machine.phase {
        match result {
            RewriteResultV::Finished(applied) => {
                lemma_limit_leaves(
                    progress.pending.push(state.rewritten(applied)),
                    progress.leaves,
                    0,
                );
            },
            RewriteResultV::Branch { branches, remainder, trivial, .. } => {
                let pending = rewritten_states(state, branches, progress.pending, 0);
                let left = state_left(state, remainder);
                lemma_limit_leaves(pending, progress.leaves, 0);
                if left is Some {
                    lemma_limit_leaves(pending.push(left->0), progress.leaves, 0);
                }
                lemma_trivial_leaves(
                    options,
                    frontier_extended(options, progress, pending, left),
                    state,
                    trivial,
                    0,
                    progress.leaves.len() as int,
                );
            },
            _ => {},
        }
    }
    if let ProofPhaseV::Claimed { state, doubts, index, outcome } = machine.phase {
        if let ClaimApplicationV::Applied { patterns, remainder } = outcome {
            let claim = deep(config.circularities@)[index as int];
            let pending = claimed_states(state, claim, patterns, progress.pending, 0);
            let left = state_left(state, remainder);
            lemma_limit_leaves(pending, progress.leaves, 0);
            if left is Some {
                lemma_limit_leaves(pending.push(left->0), progress.leaves, 0);
            }
        }
    }
}

proof fn lemma_limit_leaves(states: Seq<ProofStateV>, found: Seq<ProofLeafV>, from: int)
    requires
        0 <= from,
    ensures
        found.is_prefix_of(states_at_limit(states, found, from)),
        forall|i: int|
            found.len() <= i < states_at_limit(states, found, from).len() ==> !proven(
                #[trigger] states_at_limit(states, found, from)[i],
            ),
    decreases states.len() - from,
{
    if from < states.len() {
        let next = found.push(states[from].leaf(ProofLeafOutcomeV::BreadthBound));
        lemma_limit_leaves(states, next, from + 1);
        let all = states_at_limit(states, found, from);
        assert forall|i: int| found.len() <= i < all.len() implies !proven(#[trigger] all[i]) by {
            if i == found.len() {
                assert(all[i] == next[i]);
            }
        }
    }
}

proof fn lemma_trivial_leaves(
    options: ProofOptions,
    machine: ProofMachineV,
    state: ProofStateV,
    trivial: Seq<TrivialApplicationV>,
    from: int,
    start: int,
)
    requires
        0 <= from,
        0 <= start,
        !options.allow_vacuous ==> forall|i: int|
            start <= i < machine.progress.leaves.len() ==> !proven(
                #[trigger] machine.progress.leaves[i],
            ),
    ensures
        !options.allow_vacuous ==> forall|i: int|
            start <= i < trivial_recorded(
                options,
                machine,
                state,
                trivial,
                from,
            ).progress.leaves.len() ==> !proven(
                #[trigger] trivial_recorded(
                    options,
                    machine,
                    state,
                    trivial,
                    from,
                ).progress.leaves[i],
            ),
    decreases trivial.len() - from,
{
    if from < trivial.len() && !(machine.phase is Finished) {
        let leaf = trivial_leaf(options, state, trivial[from]);
        let after = recorded(options, machine.progress, leaf);
        assert(leaf.trace.len() > 0);
        assert(!options.allow_vacuous ==> !proven(leaf));
        if !options.allow_vacuous {
            assert forall|i: int| start <= i < after.progress.leaves.len() implies !proven(
                #[trigger] after.progress.leaves[i],
            ) by {
                if i < machine.progress.leaves.len() {
                    assert(after.progress.leaves[i] == machine.progress.leaves[i]);
                }
            }
        }
        lemma_trivial_leaves(options, after, state, trivial, from + 1, start);
    }
}

/// What is asked of the checker is whether the state at hand is an instance of the destination of
/// the claim.
pub proof fn law_destination_is_asked<'a, K: Kernel, S: SmtSolver, C: ImplicationChecker<K, S>>(
    config: ProofConfig<'a, K, S, C>,
    machine: ProofMachineV,
)
    requires
        machine.phase is Simplified,
        advanced(config, machine).phase is Implied,
    ensures
        ({
            let next = advanced(config, machine);
            let state = next.phase->Implied_state;
            &&& state.depth >= config.options.min_depth
            &&& next.phase->Implied_outcome == config.checker.implication(
                config.definition,
                state.pattern,
                config.claim@.rhs,
                config.claim@.existentials,
                config.spec_complete(),
                config.solver,
            )
        }),
{
    reveal(advanced);
}

/// The verdict of the checker decides: a state that is an instance of the destination is a leaf; a
/// state that is not known to be one is not closed by it.
pub proof fn law_verdict_decides<'a, K: Kernel, S: SmtSolver, C: ImplicationChecker<K, S>>(
    config: ProofConfig<'a, K, S, C>,
    machine: ProofMachineV,
)
    requires
        machine.phase is Implied,
        machine.phase->Implied_outcome is Ok,
    ensures
        ({
            let next = advanced(config, machine);
            let state = machine.phase->Implied_state;
            let implication = machine.phase->Implied_outcome->Ok_0;
            let before = machine.progress;
            let after = next.progress;
            &&& after.pending == before.pending
            &&& match implication.status {
                ImplicationStatus::Valid => one_leaf(before.leaves, after.leaves, state.pattern),
                ImplicationStatus::Indeterminate => {
                    ||| after.leaves == before.leaves && current_state(next.phase) == Some(state)
                    ||| one_leaf(before.leaves, after.leaves, state.pattern) && !proven(
                        after.leaves.last(),
                    )
                },
                ImplicationStatus::Invalid => {
                    ||| after.leaves == before.leaves && current_state(next.phase) is Some
                        && current_state(next.phase)->0.pattern.term == state.pattern.term && (
                    implication.condition is None ==> current_state(next.phase) == Some(state))
                    ||| after.leaves.len() == before.leaves.len() + 1
                        && after.leaves.last().pattern.term == state.pattern.term && !proven(
                        after.leaves.last(),
                    )
                },
            }
        }),
{
    reveal(advanced);
}

// ---------------------------------------------------------------------------------------------
// Whole proofs
// ---------------------------------------------------------------------------------------------
/// The proof of a claim after `count` pieces of work.
pub open spec fn proof_at<'a, K: Kernel, S: SmtSolver, C: ImplicationChecker<K, S>>(
    config: ProofConfig<'a, K, S, C>,
    count: nat,
) -> ProofMachineV {
    run(config, machine_for(config), count)
}

/// Whether the proof of a claim has just taken up a state with the given pattern, after `count`
/// pieces of work.
pub open spec fn takes<'a, K: Kernel, S: SmtSolver, C: ImplicationChecker<K, S>>(
    config: ProofConfig<'a, K, S, C>,
    count: nat,
    pattern: PatternV,
) -> bool {
    &&& count <= PROOF_WORK
    &&& proof_at(config, count).phase is Constrained
    &&& proof_at(config, count).phase->Constrained_state.pattern == pattern
}

/// Whether the proof of a claim takes up a state with the given pattern at some time behind the
/// first `count` pieces of work.
pub open spec fn taken_later<'a, K: Kernel, S: SmtSolver, C: ImplicationChecker<K, S>>(
    config: ProofConfig<'a, K, S, C>,
    count: nat,
    pattern: PatternV,
) -> bool {
    exists|later: nat| count < later && #[trigger] takes(config, later, pattern)
}

/// Whether all that a piece of work leads to is taken up later.
pub open spec fn cases_taken<'a, K: Kernel, S: SmtSolver, C: ImplicationChecker<K, S>>(
    config: ProofConfig<'a, K, S, C>,
    count: nat,
) -> bool {
    match proof_at(config, count).phase {
        ProofPhaseV::Rewritten { result: RewriteResultV::Finished(applied), .. } => taken_later(
            config,
            count,
            applied.pattern,
        ),
        ProofPhaseV::Rewritten {
            result: RewriteResultV::Branch { branches, remainder, .. },
            ..
        } => {
            &&& forall|i: int|
                0 <= i < branches.len() ==> taken_later(
                    config,
                    count,
                    (#[trigger] branches[i]).pattern,
                )
            &&& remainder is Some ==> taken_later(config, count, remainder->0.pattern)
        },
        ProofPhaseV::Claimed {
            index,
            outcome: ClaimApplicationV::Applied { patterns, remainder },
            ..
        } => index < config.circularities@.len() ==> {
            &&& forall|i: int|
                0 <= i < patterns.len() ==> taken_later(config, count, #[trigger] patterns[i])
            &&& remainder is Some ==> taken_later(config, count, remainder->0.pattern)
        },
        _ => true,
    }
}

proof fn lemma_run_further<'a, K: Kernel, S: SmtSolver, C: ImplicationChecker<K, S>>(
    config: ProofConfig<'a, K, S, C>,
    machine: ProofMachineV,
    count: nat,
)
    ensures
        run(config, machine, count + 1) == (if run(config, machine, count).phase is Finished {
            run(config, machine, count)
        } else {
            advanced(config, run(config, machine, count))
        }),
    decreases count,
{
    if count > 0 && !(machine.phase is Finished) {
        lemma_run_further(config, advanced(config, machine), (count - 1) as nat);
        assert(run(config, machine, count + 1) == run(config, advanced(config, machine), count));
    } else if !(machine.phase is Finished) {
        assert(run(config, machine, 1) == run(config, advanced(config, machine), 0));
    }
}

/// Whether a result is about the states and leaves that the machine holds.
spec fn faithful(machine: ProofMachineV) -> bool {
    match machine.phase {
        ProofPhaseV::Finished(Ok(result)) => {
            &&& result.leaves == machine.progress.leaves
            &&& result.unexplored_states == machine.progress.pending.len() as u64
        },
        _ => true,
    }
}

proof fn lemma_trivial_faithful(
    options: ProofOptions,
    machine: ProofMachineV,
    state: ProofStateV,
    trivial: Seq<TrivialApplicationV>,
    from: int,
)
    requires
        0 <= from,
        faithful(machine),
    ensures
        faithful(trivial_recorded(options, machine, state, trivial, from)),
    decreases trivial.len() - from,
{
    if from < trivial.len() && !(machine.phase is Finished) {
        lemma_trivial_faithful(
            options,
            recorded(options, machine.progress, trivial_leaf(options, state, trivial[from])),
            state,
            trivial,
            from + 1,
        );
    }
}

proof fn lemma_faithful<'a, K: Kernel, S: SmtSolver, C: ImplicationChecker<K, S>>(
    config: ProofConfig<'a, K, S, C>,
    machine: ProofMachineV,
)
    requires
        faithful(machine),
    ensures
        faithful(advanced(config, machine)),
{
    reveal(advanced);
    if let ProofPhaseV::Rewritten { state, doubts, result } = machine.phase {
        if let RewriteResultV::Branch { branches, remainder, trivial, .. } = result {
            let pending = rewritten_states(state, branches, machine.progress.pending, 0);
            lemma_trivial_faithful(
                config.options,
                frontier_extended(
                    config.options,
                    machine.progress,
                    pending,
                    state_left(state, remainder),
                ),
                state,
                trivial,
                0,
            );
        }
    }
}

/// A piece of work keeps all states but the one that it takes up.
proof fn lemma_states_kept<'a, K: Kernel, S: SmtSolver, C: ImplicationChecker<K, S>>(
    config: ProofConfig<'a, K, S, C>,
    machine: ProofMachineV,
    state: ProofStateV,
)
    requires
        machine.progress.pending.contains(state),
    ensures
        ({
            let next = advanced(config, machine);
            ||| next.progress.pending.contains(state)
            ||| next.phase is Constrained && next.phase->Constrained_state == state
        }),
{
    let next = advanced(config, machine);
    let pending = machine.progress.pending;
    let at: int = choose|at: int| 0 <= at < pending.len() && pending[at] == state;
    match machine.phase {
        ProofPhaseV::Waiting => {
            law_states_are_taken_up(config, machine);
            let taken = if config.options.search_order is BreadthFirst {
                0
            } else {
                pending.len() - 1
            };
            if at < taken {
                assert(next.progress.pending[at] == state);
            } else if at > taken {
                assert(next.progress.pending[at - 1] == state);
            }
        },
        ProofPhaseV::Rewritten { .. } => {
            law_rewrite_loses_no_case(config, machine);
            assert(next.progress.pending[at] == state);
        },
        ProofPhaseV::Claimed { index, .. } => {
            if index < config.circularities@.len() {
                law_claim_loses_no_case(config, machine);
            } else {
                reveal(advanced);
            }
            assert(next.progress.pending[at] == state);
        },
        _ => {
            reveal(advanced);
            assert(next.progress.pending[at] == state);
        },
    }
}

proof fn lemma_taken_later<'a, K: Kernel, S: SmtSolver, C: ImplicationChecker<K, S>>(
    config: ProofConfig<'a, K, S, C>,
    count: nat,
    state: ProofStateV,
)
    requires
        count <= PROOF_WORK,
        proof_at(config, count).progress.pending.contains(state),
        proof_at(config, PROOF_WORK as nat).progress.pending.len() == 0,
    ensures
        taken_later(config, count, state.pattern),
    decreases PROOF_WORK - count,
{
    let machine = proof_at(config, count);
    if count < PROOF_WORK {
        lemma_run_further(config, machine_for(config), count);
        let next = proof_at(config, count + 1);
        if machine.phase is Finished {
            assert(next == machine);
            lemma_taken_later(config, count + 1, state);
            let later = choose|later: nat|
                count + 1 < later && #[trigger] takes(config, later, state.pattern);
            assert(takes(config, later, state.pattern));
        } else {
            lemma_states_kept(config, machine, state);
            if next.progress.pending.contains(state) {
                lemma_taken_later(config, count + 1, state);
                let later = choose|later: nat|
                    count + 1 < later && #[trigger] takes(config, later, state.pattern);
                assert(takes(config, later, state.pattern));
            } else {
                assert(takes(config, count + 1, state.pattern));
            }
        }
    }
}

proof fn lemma_waiting_taken<'a, K: Kernel, S: SmtSolver, C: ImplicationChecker<K, S>>(
    config: ProofConfig<'a, K, S, C>,
    count: nat,
    pattern: PatternV,
    depth: u64,
)
    requires
        count < PROOF_WORK,
        waits(proof_at(config, count + 1).progress.pending, pattern, depth),
        proof_at(config, PROOF_WORK as nat).progress.pending.len() == 0,
    ensures
        taken_later(config, count, pattern),
{
    let pending = proof_at(config, count + 1).progress.pending;
    let i: int = choose|i: int|
        0 <= i < pending.len() && (#[trigger] pending[i]).pattern == pattern && pending[i].depth
            == depth;
    assert(pending.contains(pending[i]));
    lemma_taken_later(config, count + 1, pending[i]);
    let later = choose|later: nat| count + 1 < later && #[trigger] takes(config, later, pattern);
    assert(takes(config, later, pattern));
}

proof fn lemma_work_faithful<'a, K: Kernel, S: SmtSolver, C: ImplicationChecker<K, S>>(
    config: ProofConfig<'a, K, S, C>,
    count: nat,
)
    requires
        !config.claim@.attributes.trusted,
    ensures
        faithful(proof_at(config, count)),
    decreases count,
{
    if count > 0 {
        lemma_work_faithful(config, (count - 1) as nat);
        lemma_run_further(config, machine_for(config), (count - 1) as nat);
        if !(proof_at(config, (count - 1) as nat).phase is Finished) {
            lemma_faithful(config, proof_at(config, (count - 1) as nat));
        }
    }
}

proof fn lemma_stays_finished<'a, K: Kernel, S: SmtSolver, C: ImplicationChecker<K, S>>(
    config: ProofConfig<'a, K, S, C>,
    count: nat,
    later: nat,
)
    requires
        count <= later,
        proof_at(config, count).phase is Finished,
    ensures
        proof_at(config, later) == proof_at(config, count),
    decreases later - count,
{
    if count < later {
        lemma_run_further(config, machine_for(config), count);
        lemma_stays_finished(config, count + 1, later);
    }
}

/// Where a claim is proven, all leaves are, and no case was left: the start of the claim is taken
/// up, and so is every branch and every remainder of each rewrite step, and every destination and
/// the remainder of each claim that is applied. (The states that wait at the end can be counted.)
pub proof fn law_proven_claims_have_no_open_case<
    'a,
    K: Kernel,
    S: SmtSolver,
    C: ImplicationChecker<K, S>,
>(config: ProofConfig<'a, K, S, C>)
    requires
        !config.claim@.attributes.trusted,
        claim_proved(config) is Ok,
        claim_proved(config)->Ok_0.status is Proven,
        proof_at(config, PROOF_WORK as nat).progress.pending.len() <= u64::MAX,
    ensures
        forall|i: int|
            0 <= i < claim_proved(config)->Ok_0.leaves.len() ==> proven(
                #[trigger] claim_proved(config)->Ok_0.leaves[i],
            ),
        exists|pattern: PatternV|
            pattern.term == config.claim@.lhs.term && (forall|i: int|
                0 <= i < config.claim@.lhs.constraints.len() ==> pattern.constraints.contains(
                    #[trigger] config.claim@.lhs.constraints[i],
                )) && #[trigger] taken_later(config, 0, pattern),
        forall|count: nat| count < PROOF_WORK ==> #[trigger] cases_taken(config, count),
{
    let result = claim_proved(config)->Ok_0;
    let last = proof_at(config, PROOF_WORK as nat);
    law_status_of_proof(config);
    lemma_work_faithful(config, PROOF_WORK as nat);
    assert(last.progress.pending.len() == 0);
    assert forall|i: int| 0 <= i < result.leaves.len() implies proven(
        #[trigger] result.leaves[i],
    ) by {
        assert(status_of(result.leaves, result.unexplored_states) is Proven);
        assert(result.leaves[i].outcome is Proven || result.leaves[i].outcome is Trusted) by {
            assert(!disproves(result.leaves[i]));
            assert(!undecided_leaf(result.leaves[i]));
            assert(!(result.leaves[i].outcome is DepthBound));
            assert(!(result.leaves[i].outcome is BreadthBound));
        }
    }
    let start = machine_for(config);
    let first = start.progress.pending[0];
    assert(start.progress.pending.contains(first));
    assert(proof_at(config, 0) == start);
    lemma_taken_later(config, 0, first);
    assert forall|i: int| 0 <= i < config.claim@.lhs.constraints.len() implies
        first.pattern.constraints.contains(#[trigger] config.claim@.lhs.constraints[i]) by {
        law_extension_contains(
            config.claim@.lhs.constraints,
            config.definition.kernel.ceil(config.claim@.lhs.term),
            0,
            config.claim@.lhs.constraints[i],
        );
    }
    assert forall|count: nat| count < PROOF_WORK implies #[trigger] cases_taken(
        config,
        count,
    ) by {
        let machine = proof_at(config, count);
        let next = proof_at(config, count + 1);
        lemma_run_further(config, start, count);
        if over_breadth(config.options, next) {
            lemma_stays_finished(config, count + 1, PROOF_WORK as nat);
            assert(false);
        }
        match machine.phase {
            ProofPhaseV::Rewritten { state, doubts, result } => {
                law_rewrite_loses_no_case(config, machine);
                match result {
                    RewriteResultV::Finished(applied) => {
                        lemma_waiting_taken(
                            config,
                            count,
                            applied.pattern,
                            one_below(state.depth),
                        );
                    },
                    RewriteResultV::Branch { branches, remainder, .. } => {
                        assert forall|i: int| 0 <= i < branches.len() implies taken_later(
                            config,
                            count,
                            (#[trigger] branches[i]).pattern,
                        ) by {
                            lemma_waiting_taken(
                                config,
                                count,
                                branches[i].pattern,
                                one_below(state.depth),
                            );
                        }
                        if let Some(left) = remainder {
                            lemma_waiting_taken(config, count, left.pattern, state.depth);
                        }
                    },
                    _ => {},
                }
            },
            ProofPhaseV::Claimed { state, doubts, index, outcome } => {
                if index < config.circularities@.len() {
                    law_claim_loses_no_case(config, machine);
                    if let ClaimApplicationV::Applied { patterns, remainder } = outcome {
                        assert forall|i: int| 0 <= i < patterns.len() implies taken_later(
                            config,
                            count,
                            #[trigger] patterns[i],
                        ) by {
                            lemma_waiting_taken(
                                config,
                                count,
                                patterns[i],
                                one_below(state.depth),
                            );
                        }
                        if let Some(left) = remainder {
                            lemma_waiting_taken(config, count, left.pattern, state.depth);
                        }
                    }
                }
            },
            _ => {},
        }
    }
}

} // verus!
