//! The proof of a reachability claim as a machine: every step of it is one piece of work, and
//! between two of them the proof may run out of time.

use vstd::prelude::*;
use crate::claims::{
    apply_claim, claim_applied, ClaimApplication, ClaimApplicationV, ClaimScope, ReachabilityClaim,
    ReachabilityClaimV, ReachabilityMode,
};
use crate::definition::BackendDefinition;
use crate::execution_parts::{deeper, next_depth, trace_simplifications, with_simplifications};
use crate::execution_types::{StepTimeoutMode, TraceKind};
use crate::implication::{
    Implication, ImplicationChecker, ImplicationCondition, ImplicationConditionV, ImplicationError,
    ImplicationErrorV, ImplicationFailure, ImplicationStatus, ImplicationV,
};
use crate::index::{extend_unique, push_unique, unique_extension};
use crate::kernel::{result_view, Kernel};
use crate::model::{deep, group_deep, Value};
use crate::normalize::add_unique;
use crate::pattern::{Pattern, PatternV};
use crate::predicate::{Predicate, PredicateV};
use crate::proof_types::{
    complement_implication_condition, complement_of_condition, counterexamples, finish, finished,
    is_bottom, is_proven, proven, state_is_bottom, vacuous_outcome, vacuous_outcome_of, ProofError,
    ProofErrorV, ProofIndeterminateReason, ProofIndeterminateReasonV, ProofLeaf, ProofLeafOutcome,
    ProofLeafOutcomeV, ProofLeafV, ProofOptions, ProofResult, ProofResultV, ProofSearchOrder,
    ProofState, ProofStateV, ProofStatus,
};
use crate::rewrite_types::{
    AppliedRule, AppliedRuleV, IndeterminateReason, IndeterminateReasonV, RemainderBranch,
    RemainderBranchV, RewriteResult, RewriteResultV, TrivialApplication, TrivialApplicationV,
};
use crate::simplification::{
    conjunction_simplified, simplified, simplify_predicates_with_solver, simplify_with_solver,
};
use crate::simplify_parts::Environment;
use crate::simplify_types::{
    BudgetPolicy, Simplification, SimplificationError, SimplificationErrorV, SimplificationOptions,
    SimplificationV,
};
use crate::solver::SmtSolver;
use crate::step::{
    rewrite_step_sequential_with_options, rewrite_step_with_options, stepped, ExecutionMode,
};
use crate::substitution::Substitution;
use crate::truth::{conjunction_truth, predicates_truth, Truth};

verus! {

broadcast use group_deep;

/// What a proof runs under.
pub struct ProofConfig<'a, K: Kernel, S: SmtSolver, C: ImplicationChecker<K, S>> {
    pub definition: &'a BackendDefinition<K>,
    pub solver: &'a S,
    pub checker: &'a C,
    pub claim: &'a ReachabilityClaim,
    /// The claims that may be used behind the first step.
    pub circularities: &'a Vec<ReachabilityClaim>,
    pub options: ProofOptions,
}

impl<'a, K: Kernel, S: SmtSolver, C: ImplicationChecker<K, S>> ProofConfig<'a, K, S, C> {
    /// The options under which states are simplified: what is reached is kept.
    pub open spec fn spec_partial(self) -> SimplificationOptions {
        SimplificationOptions {
            max_iterations: self.options.max_simplification_iterations,
            budget: BudgetPolicy::KeepPartial,
        }
    }

    /// How far states are simplified.
    fn partial(&self) -> (options: SimplificationOptions)
        ensures
            options == self.spec_partial(),
    {
        SimplificationOptions::keep_partial(self.options.max_simplification_iterations)
    }

    /// The options for what must be simplified to the end.
    pub open spec fn spec_complete(self) -> SimplificationOptions {
        SimplificationOptions {
            max_iterations: self.options.max_simplification_iterations,
            budget: BudgetPolicy::Fail,
        }
    }

    /// How far implications and claims are simplified: they must be simplified to the end.
    fn complete(&self) -> (options: SimplificationOptions)
        ensures
            options == self.spec_complete(),
    {
        SimplificationOptions {
            max_iterations: self.options.max_simplification_iterations,
            budget: BudgetPolicy::Fail,
        }
    }

    /// What claims are applied with.
    pub open spec fn claim_scope(self) -> ClaimScope<'a, K, S> {
        ClaimScope {
            definition: self.definition,
            solver: self.solver,
            options: self.spec_complete(),
        }
    }
}

/// What is not known of a state: whether it is an instance of the destination, and whether a claim
/// applies to it.
#[derive(Debug, PartialEq, Eq)]
pub struct Doubts {
    pub implication: bool,
    pub claim: Option<ProofIndeterminateReason>,
}

/// The view of [`Doubts`].
pub struct DoubtsV {
    pub implication: bool,
    pub claim: Option<ProofIndeterminateReasonV>,
}

impl View for Doubts {
    type V = DoubtsV;

    open spec fn view(&self) -> DoubtsV {
        DoubtsV {
            implication: self.implication,
            claim: self.claim.deep_view(),
        }
    }
}

impl DeepView for Doubts {
    type V = DoubtsV;

    open spec fn deep_view(&self) -> DoubtsV {
        self@
    }
}

impl Value for Doubts {
    fn duplicate(&self) -> (copy: Self) {
        Doubts {
            implication: self.implication,
            claim: self.claim.duplicate(),
        }
    }

    fn equals(&self, other: &Self) -> (same: bool) {
        self.implication == other.implication
            && self.claim.equals(&other.claim)
    }
}

/// Where a proof stands with the state at hand.
#[allow(inconsistent_fields)]
#[derive(Debug, PartialEq, Eq)]
pub enum ProofPhase {
    /// The next state is to be taken up.
    Waiting,
    /// The constraints of the state were simplified.
    Constrained { state: ProofState, outcome: Result<Vec<Predicate>, SimplificationError> },
    /// The term of the state was simplified.
    Simplified { state: ProofState, outcome: Result<Simplification, SimplificationError> },
    /// It was checked whether the state is an instance of the destination.
    Implied { state: ProofState, outcome: Result<Implication, ImplicationError> },
    /// The claim at the index was applied.
    Claimed { state: ProofState, doubts: Doubts, index: usize, outcome: ClaimApplication },
    /// A rewrite step was made.
    Rewritten { state: ProofState, doubts: Doubts, result: RewriteResult },
    /// The proof has ended.
    Finished(Result<ProofResult, ProofError>),
}

/// The view of [`ProofPhase`].
#[allow(inconsistent_fields)]
pub enum ProofPhaseV {
    Waiting,
    Constrained { state: ProofStateV, outcome: Result<Seq<PredicateV>, SimplificationErrorV> },
    Simplified { state: ProofStateV, outcome: Result<SimplificationV, SimplificationErrorV> },
    Implied { state: ProofStateV, outcome: Result<ImplicationV, ImplicationErrorV> },
    Claimed { state: ProofStateV, doubts: DoubtsV, index: usize, outcome: ClaimApplicationV },
    Rewritten { state: ProofStateV, doubts: DoubtsV, result: RewriteResultV },
    Finished(Result<ProofResultV, ProofErrorV>),
}

impl View for ProofPhase {
    type V = ProofPhaseV;

    open spec fn view(&self) -> ProofPhaseV {
        match self {
            ProofPhase::Waiting => ProofPhaseV::Waiting,
            ProofPhase::Constrained { state, outcome } => ProofPhaseV::Constrained {
                state: state@,
                outcome: result_view(*outcome),
            },
            ProofPhase::Simplified { state, outcome } => ProofPhaseV::Simplified {
                state: state@,
                outcome: result_view(*outcome),
            },
            ProofPhase::Implied { state, outcome } => ProofPhaseV::Implied {
                state: state@,
                outcome: result_view(*outcome),
            },
            ProofPhase::Claimed { state, doubts, index, outcome } => ProofPhaseV::Claimed {
                state: state@,
                doubts: doubts@,
                index: *index,
                outcome: outcome@,
            },
            ProofPhase::Rewritten { state, doubts, result } => ProofPhaseV::Rewritten {
                state: state@,
                doubts: doubts@,
                result: result@,
            },
            ProofPhase::Finished(first) => ProofPhaseV::Finished(result_view(*first)),
        }
    }
}

impl DeepView for ProofPhase {
    type V = ProofPhaseV;

    open spec fn deep_view(&self) -> ProofPhaseV {
        self@
    }
}

/// What a proof has found, and what is left to do.
pub struct ProofProgress {
    pub pending: Vec<ProofState>,
    pub leaves: Vec<ProofLeaf>,
    /// The counter for fresh names.
    pub counter: u64,
    /// The number of states that were taken up.
    pub explored: u64,
}

/// The view of [`ProofProgress`].
pub struct ProofProgressV {
    pub pending: Seq<ProofStateV>,
    pub leaves: Seq<ProofLeafV>,
    pub counter: u64,
    pub explored: u64,
}

impl View for ProofProgress {
    type V = ProofProgressV;

    open spec fn view(&self) -> ProofProgressV {
        ProofProgressV {
            pending: deep(self.pending@),
            leaves: deep(self.leaves@),
            counter: self.counter,
            explored: self.explored,
        }
    }
}

/// A proof.
pub struct ProofMachine {
    pub progress: ProofProgress,
    pub phase: ProofPhase,
}

/// The view of a [`ProofMachine`].
pub struct ProofMachineV {
    pub progress: ProofProgressV,
    pub phase: ProofPhaseV,
}

impl View for ProofMachine {
    type V = ProofMachineV;

    open spec fn view(&self) -> ProofMachineV {
        ProofMachineV { progress: self.progress@, phase: self.phase@ }
    }
}

// ---------------------------------------------------------------------------------------------
// Ends
// ---------------------------------------------------------------------------------------------
/// The proof ended with the leaves so far.
pub open spec fn ended(progress: ProofProgressV) -> ProofMachineV {
    ProofMachineV {
        progress,
        phase: ProofPhaseV::Finished(
            Ok(finished(progress.leaves, progress.explored, progress.pending.len() as u64)),
        ),
    }
}

fn end(progress: ProofProgress) -> (machine: ProofMachine)
    ensures
        machine@ == ended(progress@),
{
    let result = finish(
        progress.leaves.duplicate(),
        progress.explored,
        progress.pending.len() as u64,
    );
    ProofMachine { progress, phase: ProofPhase::Finished(Ok(result)) }
}

/// `progress` with one more leaf.
pub open spec fn with_leaf(progress: ProofProgressV, leaf: ProofLeafV) -> ProofProgressV {
    ProofProgressV { leaves: progress.leaves.push(leaf), ..progress }
}

/// Whether there are as many leaves that are not proven as wanted.
pub open spec fn limit_reached(leaves: Seq<ProofLeafV>, options: ProofOptions) -> bool {
    counterexamples(leaves, leaves.len() as int) >= options.max_counterexamples
}

/// The machine that is done with a state, which became a leaf. The proof ends where there are as
/// many leaves that are not proven as wanted.
pub open spec fn recorded(
    options: ProofOptions,
    progress: ProofProgressV,
    leaf: ProofLeafV,
) -> ProofMachineV {
    let progress = with_leaf(progress, leaf);
    if limit_reached(progress.leaves, options) {
        ended(progress)
    } else {
        ProofMachineV { progress, phase: ProofPhaseV::Waiting }
    }
}

fn counterexample_limit_reached(leaves: &Vec<ProofLeaf>, options: ProofOptions) -> (result: bool)
    ensures
        result == limit_reached(deep(leaves@), options),
{
    let mut count: usize = 0;
    let mut i: usize = 0;
    while i < leaves.len()
        invariant
            i <= leaves.len(),
            count <= i,
            count == counterexamples(deep(leaves@), i as int),
        decreases leaves.len() - i,
    {
        assert(deep(leaves@)[i as int] == leaves[i as int]@);
        if !is_proven(&leaves[i]) {
            count += 1;
        }
        i += 1;
    }
    count >= options.max_counterexamples
}

fn record(options: ProofOptions, progress: ProofProgress, leaf: ProofLeaf) -> (machine: ProofMachine)
    ensures
        machine@ == recorded(options, progress@, leaf@),
{
    let mut progress = progress;
    progress.leaves.push(leaf);
    if counterexample_limit_reached(&progress.leaves, options) {
        return end(progress);
    }
    ProofMachine { progress, phase: ProofPhase::Waiting }
}

/// The states from `from` on as leaves at the breadth bound, behind `found`.
pub open spec fn states_at_limit(
    states: Seq<ProofStateV>,
    found: Seq<ProofLeafV>,
    from: int,
) -> Seq<ProofLeafV>
    decreases states.len() - from,
{
    if from >= states.len() {
        found
    } else {
        states_at_limit(
            states,
            found.push(states[from].leaf(ProofLeafOutcomeV::BreadthBound)),
            from + 1,
        )
    }
}

/// The proof ended because there are too many states.
pub open spec fn ended_at_limit(progress: ProofProgressV) -> ProofMachineV {
    ended(
        ProofProgressV {
            leaves: states_at_limit(progress.pending, progress.leaves, 0),
            ..progress
        },
    )
}

fn finish_at_breadth_limit(progress: ProofProgress) -> (machine: ProofMachine)
    ensures
        machine@ == ended_at_limit(progress@),
{
    let ProofProgress { pending, leaves, counter, explored } = progress;
    let ghost start = deep(leaves@);
    let mut all = leaves;
    let mut i: usize = 0;
    while i < pending.len()
        invariant
            i <= pending.len(),
            states_at_limit(deep(pending@), start, 0) == states_at_limit(
                deep(pending@),
                deep(all@),
                i as int,
            ),
        decreases pending.len() - i,
    {
        assert(deep(pending@)[i as int] == pending[i as int]@);
        all.push(pending[i].duplicate().leaf(ProofLeafOutcome::BreadthBound));
        i += 1;
    }
    end(ProofProgress { pending, leaves: all, counter, explored })
}

/// Whether there are too many states.
pub open spec fn too_many(pending: Seq<ProofStateV>, options: ProofOptions) -> bool {
    options.breadth_limit is Some && pending.len() > options.breadth_limit->0
}

fn are_too_many(pending: &Vec<ProofState>, options: ProofOptions) -> (result: bool)
    ensures
        result == too_many(deep(pending@), options),
{
    match options.breadth_limit {
        Some(limit) => pending.len() > limit,
        None => false,
    }
}

// ---------------------------------------------------------------------------------------------
// Taking up a state
// ---------------------------------------------------------------------------------------------
/// The next state taken up, and its constraints simplified.
pub open spec fn taken_up<'a, K: Kernel, S: SmtSolver, C: ImplicationChecker<K, S>>(
    config: ProofConfig<'a, K, S, C>,
    progress: ProofProgressV,
) -> ProofMachineV {
    if progress.pending.len() == 0 {
        ended(progress)
    } else {
        let at = match config.options.search_order {
            ProofSearchOrder::BreadthFirst => 0int,
            ProofSearchOrder::DepthFirst => progress.pending.len() - 1,
        };
        let state = progress.pending[at];
        ProofMachineV {
            progress: ProofProgressV {
                pending: progress.pending.remove(at),
                explored: deeper(progress.explored),
                ..progress
            },
            phase: ProofPhaseV::Constrained {
                state,
                outcome: conjunction_simplified(
                    config.definition,
                    config.solver,
                    state.pattern.constraints,
                    Seq::empty(),
                    config.spec_partial(),
                ),
            },
        }
    }
}

#[verifier::spinoff_prover]
fn take_up<'a, K: Kernel, S: SmtSolver, C: ImplicationChecker<K, S>>(
    config: &ProofConfig<'a, K, S, C>,
    progress: ProofProgress,
) -> (machine: ProofMachine)
    ensures
        machine@ == taken_up(*config, progress@),
{
    let mut progress = progress;
    if progress.pending.len() == 0 {
        return end(progress);
    }
    let at: usize = match config.options.search_order {
        ProofSearchOrder::BreadthFirst => 0,
        ProofSearchOrder::DepthFirst => progress.pending.len() - 1,
    };
    let ghost before = deep(progress.pending@);
    assert(before[at as int] == progress.pending[at as int]@);
    let state = progress.pending.remove(at);
    assert(deep(progress.pending@) =~= before.remove(at as int));
    progress.explored = next_depth(progress.explored);
    let none: Vec<Predicate> = Vec::new();
    let outcome = simplify_predicates_with_solver(
        config.definition,
        &state.pattern.constraints,
        &none,
        config.partial(),
        config.solver,
    );
    ProofMachine { progress, phase: ProofPhase::Constrained { state, outcome } }
}

/// A failure to simplify a state.
pub open spec fn not_simplified(state: ProofStateV, error: SimplificationErrorV) -> ProofLeafV {
    state.leaf(
        ProofLeafOutcomeV::Indeterminate(ProofIndeterminateReasonV::Simplification(error)),
    )
}

fn leave_unsimplified(state: ProofState, error: SimplificationError) -> (leaf: ProofLeaf)
    ensures
        leaf@ == not_simplified(state@, error@),
{
    state.leaf(ProofLeafOutcome::Indeterminate(ProofIndeterminateReason::Simplification(error)))
}

/// What follows the simplification of the constraints: the term is simplified, unless the
/// constraints do not hold.
pub open spec fn constraints_taken<'a, K: Kernel, S: SmtSolver, C: ImplicationChecker<K, S>>(
    config: ProofConfig<'a, K, S, C>,
    progress: ProofProgressV,
    state: ProofStateV,
    outcome: Result<Seq<PredicateV>, SimplificationErrorV>,
) -> ProofMachineV {
    match outcome {
        Err(error) => recorded(config.options, progress, not_simplified(state, error)),
        Ok(constraints) => {
            let state = ProofStateV {
                pattern: PatternV { constraints, ..state.pattern },
                ..state
            };
            if conjunction_truth(constraints) is False {
                recorded(
                    config.options,
                    progress,
                    state.leaf(
                        vacuous_outcome_of(state, config.options, ProofLeafOutcomeV::Vacuous),
                    ),
                )
            } else {
                ProofMachineV {
                    progress,
                    phase: ProofPhaseV::Simplified {
                        state,
                        outcome: simplified(
                            config.definition,
                            config.solver,
                            state.pattern.term,
                            constraints,
                            config.spec_partial(),
                        ),
                    },
                }
            }
        },
    }
}

#[verifier::spinoff_prover]
fn take_constraints<'a, K: Kernel, S: SmtSolver, C: ImplicationChecker<K, S>>(
    config: &ProofConfig<'a, K, S, C>,
    progress: ProofProgress,
    state: ProofState,
    outcome: Result<Vec<Predicate>, SimplificationError>,
) -> (machine: ProofMachine)
    ensures
        machine@ == constraints_taken(*config, progress@, state@, result_view(outcome)),
{
    let constraints = match outcome {
        Ok(constraints) => constraints,
        Err(error) => {
            return record(config.options, progress, leave_unsimplified(state, error));
        },
    };
    let ProofState { pattern, depth, trace } = state;
    let next = ProofState { pattern: Pattern { term: pattern.term, constraints }, depth, trace };
    if matches!(predicates_truth(&next.pattern.constraints), Truth::False) {
        let outcome = vacuous_outcome(&next, config.options, ProofLeafOutcome::Vacuous);
        return record(config.options, progress, next.leaf(outcome));
    }
    let outcome = simplify_with_solver(
        config.definition,
        &next.pattern.term,
        &next.pattern.constraints,
        config.partial(),
        config.solver,
    );
    ProofMachine { progress, phase: ProofPhase::Simplified { state: next, outcome } }
}

/// A state with its term simplified.
pub open spec fn state_simplified(state: ProofStateV, result: SimplificationV) -> ProofStateV {
    ProofStateV {
        pattern: PatternV {
            term: result.term,
            constraints: unique_extension(state.pattern.constraints, result.constraints),
        },
        trace: with_simplifications(state.trace, state.depth, result.applied_rules, 0),
        ..state
    }
}

/// What follows the simplification of the term: it is checked whether the state is an instance of
/// the destination, unless it has no instance itself or is not deep enough.
pub open spec fn term_taken<'a, K: Kernel, S: SmtSolver, C: ImplicationChecker<K, S>>(
    config: ProofConfig<'a, K, S, C>,
    progress: ProofProgressV,
    state: ProofStateV,
    outcome: Result<SimplificationV, SimplificationErrorV>,
) -> ProofMachineV {
    match outcome {
        Err(error) => recorded(config.options, progress, not_simplified(state, error)),
        Ok(result) => {
            let state = state_simplified(state, result);
            if is_bottom(config.solver, state) {
                recorded(
                    config.options,
                    progress,
                    state.leaf(
                        vacuous_outcome_of(state, config.options, ProofLeafOutcomeV::Vacuous),
                    ),
                )
            } else if state.depth >= config.options.min_depth {
                ProofMachineV {
                    progress,
                    phase: ProofPhaseV::Implied {
                        state,
                        outcome: config.checker.implication(
                            config.definition,
                            state.pattern,
                            config.claim@.rhs,
                            config.claim@.existentials,
                            config.spec_complete(),
                            config.solver,
                        ),
                    },
                }
            } else {
                not_at_destination(config, progress, state, false)
            }
        },
    }
}

#[verifier::spinoff_prover]
fn take_term<'a, K: Kernel, S: SmtSolver, C: ImplicationChecker<K, S>>(
    config: &ProofConfig<'a, K, S, C>,
    progress: ProofProgress,
    state: ProofState,
    outcome: Result<Simplification, SimplificationError>,
) -> (machine: ProofMachine)
    ensures
        machine@ == term_taken(*config, progress@, state@, result_view(outcome)),
{
    let result = match outcome {
        Ok(result) => result,
        Err(error) => {
            return record(config.options, progress, leave_unsimplified(state, error));
        },
    };
    let ProofState { pattern, depth, mut trace } = state;
    let mut constraints = pattern.constraints;
    extend_unique(&mut constraints, result.constraints);
    trace_simplifications(&mut trace, depth, &result.applied_rules);
    let next = ProofState { pattern: Pattern { term: result.term, constraints }, depth, trace };
    if state_is_bottom(&next, config.solver) {
        let outcome = vacuous_outcome(&next, config.options, ProofLeafOutcome::Vacuous);
        return record(config.options, progress, next.leaf(outcome));
    }
    if next.depth >= config.options.min_depth {
        let outcome = config.checker.check_disjunctive_implication_with_existentials(
            config.definition,
            &next.pattern,
            &config.claim.rhs,
            &config.claim.existentials,
            config.complete(),
            config.solver,
        );
        return ProofMachine { progress, phase: ProofPhase::Implied { state: next, outcome } };
    }
    leave_destination(config, progress, next, false)
}

// ---------------------------------------------------------------------------------------------
// The destination
// ---------------------------------------------------------------------------------------------
/// What a destination leaves of a state that it covers under a condition.
pub open spec fn destination_remainder(
    claim: ReachabilityClaimV,
    pattern: PatternV,
    condition: ImplicationConditionV,
) -> RemainderBranchV {
    RemainderBranchV {
        pattern: PatternV {
            constraints: push_unique(
                pattern.constraints,
                complement_of_condition(pattern, condition),
            ),
            ..pattern
        },
        rule_ids: seq!["destination:"@ + claim.attributes.unique_id],
    }
}

fn make_destination_remainder(
    claim: &ReachabilityClaim,
    pattern: &Pattern,
    condition: ImplicationCondition,
) -> (result: RemainderBranch)
    ensures
        result@ == destination_remainder(claim@, pattern@, condition@),
{
    let mut constraints = pattern.constraints.duplicate();
    add_unique(&mut constraints, complement_implication_condition(pattern, condition));
    let mut id = "destination:".to_owned();
    id.append(claim.attributes.unique_id.as_str());
    let ghost expected = seq!["destination:"@ + claim@.attributes.unique_id];
    let mut rule_ids: Vec<String> = Vec::new();
    rule_ids.push(id);
    assert(deep(rule_ids@) =~= expected);
    RemainderBranch { pattern: Pattern { term: pattern.term.duplicate(), constraints }, rule_ids }
}

/// A condition, where none is given one that always holds.
pub open spec fn condition_or_none(condition: Option<ImplicationConditionV>) -> ImplicationConditionV {
    match condition {
        Some(condition) => condition,
        None => ImplicationConditionV {
            predicates: Seq::empty(),
            substitution: Seq::empty(),
            witnesses: Seq::empty(),
        },
    }
}

/// What follows the check whether a state is an instance of the destination. The part of a state
/// that the destination does not cover is stuck, or goes on where that is not checked.
pub open spec fn implication_taken<'a, K: Kernel, S: SmtSolver, C: ImplicationChecker<K, S>>(
    config: ProofConfig<'a, K, S, C>,
    progress: ProofProgressV,
    state: ProofStateV,
    outcome: Result<ImplicationV, ImplicationErrorV>,
) -> ProofMachineV {
    match outcome {
        Err(error) => ProofMachineV {
            progress,
            phase: ProofPhaseV::Finished(Err(ProofErrorV::Implication(error))),
        },
        Ok(implication) => match implication.status {
            ImplicationStatus::Valid => recorded(
                config.options,
                progress,
                state.leaf(
                    if implication.vacuous {
                        vacuous_outcome_of(state, config.options, ProofLeafOutcomeV::Vacuous)
                    } else {
                        ProofLeafOutcomeV::Proven(condition_or_none(implication.condition))
                    },
                ),
            ),
            ImplicationStatus::Invalid => match implication.condition {
                Some(condition) => {
                    let rest = state.remaining(
                        destination_remainder(config.claim@, state.pattern, condition),
                    );
                    if config.options.stuck_check {
                        recorded(config.options, progress, rest.leaf(ProofLeafOutcomeV::Stuck))
                    } else {
                        not_at_destination(config, progress, rest, false)
                    }
                },
                None => if config.options.stuck_check && implication.failure == Some(
                    ImplicationFailure::ConsequentCondition,
                ) {
                    recorded(config.options, progress, state.leaf(ProofLeafOutcomeV::Stuck))
                } else {
                    not_at_destination(config, progress, state, false)
                },
            },
            ImplicationStatus::Indeterminate => not_at_destination(config, progress, state, true),
        },
    }
}

#[verifier::spinoff_prover]
fn take_implication<'a, K: Kernel, S: SmtSolver, C: ImplicationChecker<K, S>>(
    config: &ProofConfig<'a, K, S, C>,
    progress: ProofProgress,
    state: ProofState,
    outcome: Result<Implication, ImplicationError>,
) -> (machine: ProofMachine)
    ensures
        machine@ == implication_taken(*config, progress@, state@, result_view(outcome)),
{
    let implication = match outcome {
        Ok(implication) => implication,
        Err(error) => {
            return ProofMachine {
                progress,
                phase: ProofPhase::Finished(Err(ProofError::Implication(error))),
            };
        },
    };
    match implication.status {
        ImplicationStatus::Valid => {
            let outcome = if implication.vacuous {
                vacuous_outcome(&state, config.options, ProofLeafOutcome::Vacuous)
            } else {
                ProofLeafOutcome::Proven(
                    match implication.condition {
                        Some(condition) => condition,
                        None => ImplicationCondition {
                            predicates: Vec::new(),
                            substitution: Substitution::new(),
                            witnesses: Substitution::new(),
                        },
                    },
                )
            };
            record(config.options, progress, state.leaf(outcome))
        },
        ImplicationStatus::Invalid => match implication.condition {
            Some(condition) => {
                let remainder = make_destination_remainder(
                    config.claim,
                    &state.pattern,
                    condition,
                );
                let rest = state.remaining(remainder);
                if config.options.stuck_check {
                    record(config.options, progress, rest.leaf(ProofLeafOutcome::Stuck))
                } else {
                    leave_destination(config, progress, rest, false)
                }
            },
            None => {
                if config.options.stuck_check && matches!(
                    implication.failure,
                    Some(ImplicationFailure::ConsequentCondition)
                ) {
                    record(config.options, progress, state.leaf(ProofLeafOutcome::Stuck))
                } else {
                    leave_destination(config, progress, state, false)
                }
            },
        },
        ImplicationStatus::Indeterminate => leave_destination(config, progress, state, true),
    }
}

/// What follows where a state is not known to be an instance of the destination: behind the first
/// step claims are applied, else rules.
pub open spec fn not_at_destination<'a, K: Kernel, S: SmtSolver, C: ImplicationChecker<K, S>>(
    config: ProofConfig<'a, K, S, C>,
    progress: ProofProgressV,
    state: ProofStateV,
    doubt: bool,
) -> ProofMachineV {
    let doubts = DoubtsV { implication: doubt, claim: None };
    if state.depth >= config.options.max_depth {
        recorded(config.options, progress, state.leaf(ProofLeafOutcomeV::DepthBound))
    } else if state.depth > 0 {
        claims_tried(config, progress, state, doubts, 0)
    } else {
        rules_tried(config, progress, state, doubts)
    }
}

#[verifier::spinoff_prover]
fn leave_destination<'a, K: Kernel, S: SmtSolver, C: ImplicationChecker<K, S>>(
    config: &ProofConfig<'a, K, S, C>,
    progress: ProofProgress,
    state: ProofState,
    doubt: bool,
) -> (machine: ProofMachine)
    ensures
        machine@ == not_at_destination(*config, progress@, state@, doubt),
{
    let doubts = Doubts { implication: doubt, claim: None };
    if state.depth >= config.options.max_depth {
        record(config.options, progress, state.leaf(ProofLeafOutcome::DepthBound))
    } else if state.depth > 0 {
        try_claims(config, progress, state, doubts, 0)
    } else {
        try_rules(config, progress, state, doubts)
    }
}

// ---------------------------------------------------------------------------------------------
// Claims
// ---------------------------------------------------------------------------------------------
/// The first claim of the given mode from `from` on.
pub open spec fn next_candidate(
    circularities: Seq<ReachabilityClaimV>,
    mode: ReachabilityMode,
    from: int,
) -> Option<int>
    decreases circularities.len() - from,
{
    if from >= circularities.len() {
        None
    } else if circularities[from].mode == mode {
        Some(from)
    } else {
        next_candidate(circularities, mode, from + 1)
    }
}

fn find_candidate(circularities: &Vec<ReachabilityClaim>, mode: ReachabilityMode, from: usize) -> (result:
    Option<usize>)
    ensures
        match result {
            Some(i) => i < circularities.len() && next_candidate(
                deep(circularities@),
                mode,
                from as int,
            ) == Some(i as int),
            None => next_candidate(deep(circularities@), mode, from as int) is None,
        },
{
    let mut i: usize = from;
    while i < circularities.len()
        invariant
            next_candidate(deep(circularities@), mode, from as int) == next_candidate(
                deep(circularities@),
                mode,
                i as int,
            ),
        decreases circularities.len() - i,
    {
        assert(deep(circularities@)[i as int] == circularities[i as int]@);
        if circularities[i].mode == mode {
            return Some(i);
        }
        i += 1;
    }
    None
}

/// The next claim from `from` on applied to a state, or rules where there is none.
pub open spec fn claims_tried<'a, K: Kernel, S: SmtSolver, C: ImplicationChecker<K, S>>(
    config: ProofConfig<'a, K, S, C>,
    progress: ProofProgressV,
    state: ProofStateV,
    doubts: DoubtsV,
    from: int,
) -> ProofMachineV {
    match next_candidate(deep(config.circularities@), config.claim@.mode, from) {
        None => rules_tried(config, progress, state, doubts),
        Some(index) => {
            let (outcome, counter) = claim_applied(
                config.claim_scope(),
                deep(config.circularities@)[index],
                state.pattern,
                progress.counter,
            );
            ProofMachineV {
                progress: ProofProgressV { counter, ..progress },
                phase: ProofPhaseV::Claimed { state, doubts, index: index as usize, outcome },
            }
        },
    }
}

#[verifier::spinoff_prover]
fn try_claims<'a, K: Kernel, S: SmtSolver, C: ImplicationChecker<K, S>>(
    config: &ProofConfig<'a, K, S, C>,
    progress: ProofProgress,
    state: ProofState,
    doubts: Doubts,
    from: usize,
) -> (machine: ProofMachine)
    ensures
        machine@ == claims_tried(*config, progress@, state@, doubts@, from as int),
{
    match find_candidate(config.circularities, config.claim.mode, from) {
        None => try_rules(config, progress, state, doubts),
        Some(index) => {
            assert(deep(config.circularities@)[index as int]
                == config.circularities[index as int]@);
            let scope = ClaimScope {
                definition: config.definition,
                solver: config.solver,
                options: config.complete(),
            };
            let mut after = progress;
            let mut counter: u64 = after.counter;
            let outcome = apply_claim(
                &scope,
                &config.circularities[index],
                &state.pattern,
                &mut counter,
            );
            after.counter = counter;
            ProofMachine {
                progress: after,
                phase: ProofPhase::Claimed { state, doubts, index, outcome },
            }
        },
    }
}

/// The states at the destinations from `from` on of a claim, behind `found`.
pub open spec fn claimed_states(
    state: ProofStateV,
    claim: ReachabilityClaimV,
    patterns: Seq<PatternV>,
    found: Seq<ProofStateV>,
    from: int,
) -> Seq<ProofStateV>
    decreases patterns.len() - from,
{
    if from >= patterns.len() {
        found
    } else {
        claimed_states(
            state,
            claim,
            patterns,
            found.push(
                state.stepped_to(
                    patterns[from],
                    TraceKind::Claim,
                    claim.attributes.label,
                    claim.attributes.unique_id,
                ),
            ),
            from + 1,
        )
    }
}

/// `progress` with more states, and with what is left of a state; the proof ends where these are
/// too many.
pub open spec fn frontier_extended(
    options: ProofOptions,
    progress: ProofProgressV,
    pending: Seq<ProofStateV>,
    left: Option<ProofStateV>,
) -> ProofMachineV {
    let progress = ProofProgressV { pending, ..progress };
    if too_many(pending, options) {
        ended_at_limit(progress)
    } else {
        match left {
            None => ProofMachineV { progress, phase: ProofPhaseV::Waiting },
            Some(state) => {
                let progress = ProofProgressV { pending: pending.push(state), ..progress };
                if too_many(progress.pending, options) {
                    ended_at_limit(progress)
                } else {
                    ProofMachineV { progress, phase: ProofPhaseV::Waiting }
                }
            },
        }
    }
}

fn extend_frontier(
    options: ProofOptions,
    progress: ProofProgress,
    pending: Vec<ProofState>,
    left: Option<ProofState>,
) -> (machine: ProofMachine)
    ensures
        machine@ == frontier_extended(options, progress@, deep(pending@), left.deep_view()),
{
    let mut after = progress;
    after.pending = pending;
    if are_too_many(&after.pending, options) {
        return finish_at_breadth_limit(after);
    }
    if let Some(state) = left {
        after.pending.push(state);
        if are_too_many(&after.pending, options) {
            return finish_at_breadth_limit(after);
        }
    }
    ProofMachine { progress: after, phase: ProofPhase::Waiting }
}

/// What is left of a state, as a state.
pub open spec fn state_left(state: ProofStateV, remainder: Option<RemainderBranchV>) -> Option<
    ProofStateV,
> {
    match remainder {
        Some(remainder) => Some(state.remaining(remainder)),
        None => None,
    }
}

fn leave_state(state: &ProofState, remainder: Option<RemainderBranch>) -> (result: Option<ProofState>)
    ensures
        result.deep_view() == state_left(state@, remainder.deep_view()),
{
    match remainder {
        Some(remainder) => Some(state.remaining(remainder)),
        None => None,
    }
}

/// What follows the application of a claim: one that does not apply, or of which that is not known,
/// is passed over.
pub open spec fn claim_taken<'a, K: Kernel, S: SmtSolver, C: ImplicationChecker<K, S>>(
    config: ProofConfig<'a, K, S, C>,
    progress: ProofProgressV,
    state: ProofStateV,
    doubts: DoubtsV,
    index: usize,
    outcome: ClaimApplicationV,
) -> ProofMachineV {
    let claim = deep(config.circularities@)[index as int];
    match outcome {
        ClaimApplicationV::NotApplicable => claims_tried(
            config,
            progress,
            state,
            doubts,
            index + 1,
        ),
        ClaimApplicationV::Indeterminate(reason) => claims_tried(
            config,
            progress,
            state,
            DoubtsV {
                claim: match doubts.claim {
                    Some(first) => Some(first),
                    None => Some(
                        ProofIndeterminateReasonV::Claim {
                            claim_id: claim.attributes.unique_id,
                            reason,
                        },
                    ),
                },
                ..doubts
            },
            index + 1,
        ),
        ClaimApplicationV::Applied { patterns, remainder } => frontier_extended(
            config.options,
            progress,
            claimed_states(state, claim, patterns, progress.pending, 0),
            state_left(state, remainder),
        ),
    }
}

#[verifier::spinoff_prover]
fn take_claim<'a, K: Kernel, S: SmtSolver, C: ImplicationChecker<K, S>>(
    config: &ProofConfig<'a, K, S, C>,
    progress: ProofProgress,
    state: ProofState,
    doubts: Doubts,
    index: usize,
    outcome: ClaimApplication,
) -> (machine: ProofMachine)
    requires
        index < config.circularities@.len(),
    ensures
        machine@ == claim_taken(*config, progress@, state@, doubts@, index, outcome@),
{
    assert(index < config.circularities.len());
    assert(deep(config.circularities@)[index as int] == config.circularities[index as int]@);
    let claim = &config.circularities[index];
    match outcome {
        ClaimApplication::NotApplicable => try_claims(config, progress, state, doubts, index + 1),
        ClaimApplication::Indeterminate(reason) => {
            let Doubts { implication, claim: first } = doubts;
            let doubt = match first {
                Some(first) => Some(first),
                None => Some(
                    ProofIndeterminateReason::Claim {
                        claim_id: claim.attributes.unique_id.duplicate(),
                        reason,
                    },
                ),
            };
            try_claims(
                config,
                progress,
                state,
                Doubts { implication, claim: doubt },
                index + 1,
            )
        },
        ClaimApplication::Applied { patterns, remainder } => {
            let mut after = progress;
            let mut pending: Vec<ProofState> = Vec::new();
            pending.append(&mut after.pending);
            claim_states(&state, claim, &patterns, &mut pending);
            let left = leave_state(&state, remainder);
            extend_frontier(config.options, after, pending, left)
        },
    }
}

fn claim_states(
    state: &ProofState,
    claim: &ReachabilityClaim,
    patterns: &Vec<Pattern>,
    pending: &mut Vec<ProofState>,
)
    ensures
        deep(final(pending)@) == claimed_states(
            state@,
            claim@,
            deep(patterns@),
            deep(old(pending)@),
            0,
        ),
{
    let ghost start = deep(pending@);
    let mut i: usize = 0;
    while i < patterns.len()
        invariant
            i <= patterns.len(),
            claimed_states(state@, claim@, deep(patterns@), start, 0) == claimed_states(
                state@,
                claim@,
                deep(patterns@),
                deep(pending@),
                i as int,
            ),
        decreases patterns.len() - i,
    {
        assert(deep(patterns@)[i as int] == patterns[i as int]@);
        pending.push(
            state.step_to(
                patterns[i].duplicate(),
                TraceKind::Claim,
                claim.attributes.label.duplicate(),
                claim.attributes.unique_id.duplicate(),
            ),
        );
        i += 1;
    }
}

// ---------------------------------------------------------------------------------------------
// Rules
// ---------------------------------------------------------------------------------------------
/// The mode of the rewrite steps of a proof: for one path the rules are applied one after another.
pub open spec fn step_mode(mode: ReachabilityMode) -> ExecutionMode {
    match mode {
        ReachabilityMode::OnePath => ExecutionMode::Any,
        ReachabilityMode::AllPath => ExecutionMode::All,
    }
}

/// A rewrite step made.
pub open spec fn rules_tried<'a, K: Kernel, S: SmtSolver, C: ImplicationChecker<K, S>>(
    config: ProofConfig<'a, K, S, C>,
    progress: ProofProgressV,
    state: ProofStateV,
    doubts: DoubtsV,
) -> ProofMachineV {
    let (result, counter) = stepped(
        Environment { definition: config.definition, solver: config.solver },
        state.pattern,
        progress.counter,
        config.spec_partial(),
        step_mode(config.claim@.mode),
        false,
    );
    ProofMachineV {
        progress: ProofProgressV { counter, ..progress },
        phase: ProofPhaseV::Rewritten { state, doubts, result },
    }
}

#[verifier::spinoff_prover]
fn try_rules<'a, K: Kernel, S: SmtSolver, C: ImplicationChecker<K, S>>(
    config: &ProofConfig<'a, K, S, C>,
    progress: ProofProgress,
    state: ProofState,
    doubts: Doubts,
) -> (machine: ProofMachine)
    ensures
        machine@ == rules_tried(*config, progress@, state@, doubts@),
{
    let mut after = progress;
    let mut counter: u64 = after.counter;
    let result = match config.claim.mode {
        ReachabilityMode::OnePath => rewrite_step_sequential_with_options(
            config.definition,
            &state.pattern,
            &mut counter,
            config.partial(),
            config.solver,
        ),
        ReachabilityMode::AllPath => rewrite_step_with_options(
            config.definition,
            &state.pattern,
            &mut counter,
            config.partial(),
            config.solver,
        ),
    };
    after.counter = counter;
    ProofMachine { progress: after, phase: ProofPhase::Rewritten { state, doubts, result } }
}

/// The states behind the rules from `from` on, behind `found`.
pub open spec fn rewritten_states(
    state: ProofStateV,
    branches: Seq<AppliedRuleV>,
    found: Seq<ProofStateV>,
    from: int,
) -> Seq<ProofStateV>
    decreases branches.len() - from,
{
    if from >= branches.len() {
        found
    } else {
        rewritten_states(
            state,
            branches,
            found.push(state.rewritten(branches[from])),
            from + 1,
        )
    }
}

fn rewrite_states(state: &ProofState, branches: &Vec<AppliedRule>, pending: &mut Vec<ProofState>)
    ensures
        deep(final(pending)@) == rewritten_states(
            state@,
            deep(branches@),
            deep(old(pending)@),
            0,
        ),
{
    let ghost start = deep(pending@);
    let mut i: usize = 0;
    while i < branches.len()
        invariant
            i <= branches.len(),
            rewritten_states(state@, deep(branches@), start, 0) == rewritten_states(
                state@,
                deep(branches@),
                deep(pending@),
                i as int,
            ),
        decreases branches.len() - i,
    {
        assert(deep(branches@)[i as int] == branches[i as int]@);
        pending.push(state.rewritten(&branches[i]));
        i += 1;
    }
}

/// The leaf for the case in which a rule has no result.
pub open spec fn trivial_leaf(
    options: ProofOptions,
    state: ProofStateV,
    trivial: TrivialApplicationV,
) -> ProofLeafV {
    let next = state.stepped_to(
        PatternV {
            constraints: push_unique(state.pattern.constraints, trivial.applicability),
            ..state.pattern
        },
        TraceKind::Rewrite,
        trivial.label,
        trivial.rule_id,
    );
    next.leaf(vacuous_outcome_of(next, options, ProofLeafOutcomeV::Trivial))
}

/// The machine with a leaf for each rule without a result from `from` on; `machine` is where the
/// proof stands, which may have ended.
pub open spec fn trivial_recorded(
    options: ProofOptions,
    machine: ProofMachineV,
    state: ProofStateV,
    trivial: Seq<TrivialApplicationV>,
    from: int,
) -> ProofMachineV
    decreases trivial.len() - from,
{
    if from >= trivial.len() || machine.phase is Finished {
        machine
    } else {
        trivial_recorded(
            options,
            recorded(options, machine.progress, trivial_leaf(options, state, trivial[from])),
            state,
            trivial,
            from + 1,
        )
    }
}

fn make_trivial_leaf(options: ProofOptions, state: &ProofState, trivial: &TrivialApplication) -> (leaf:
    ProofLeaf)
    ensures
        leaf@ == trivial_leaf(options, state@, trivial@),
{
    let mut constraints = state.pattern.constraints.duplicate();
    add_unique(&mut constraints, trivial.applicability.duplicate());
    let next = state.step_to(
        Pattern { term: state.pattern.term.duplicate(), constraints },
        TraceKind::Rewrite,
        trivial.label.duplicate(),
        trivial.rule_id.duplicate(),
    );
    let outcome = vacuous_outcome(&next, options, ProofLeafOutcome::Trivial);
    next.leaf(outcome)
}

fn record_trivial(
    options: ProofOptions,
    machine: ProofMachine,
    state: &ProofState,
    trivial: &Vec<TrivialApplication>,
) -> (result: ProofMachine)
    ensures
        result@ == trivial_recorded(options, machine@, state@, deep(trivial@), 0),
{
    let mut current = machine;
    let mut i: usize = 0;
    while i < trivial.len() && !matches!(current.phase, ProofPhase::Finished(_))
        invariant
            i <= trivial.len(),
            trivial_recorded(options, machine@, state@, deep(trivial@), 0) == trivial_recorded(
                options,
                current@,
                state@,
                deep(trivial@),
                i as int,
            ),
        decreases trivial.len() - i,
    {
        assert(deep(trivial@)[i as int] == trivial[i as int]@);
        let leaf = make_trivial_leaf(options, state, &trivial[i]);
        current = record(options, current.progress, leaf);
        i += 1;
    }
    current
}

/// The outcome of a state that no rule applies to.
pub open spec fn stuck_outcome(doubts: DoubtsV) -> ProofLeafOutcomeV {
    if doubts.implication {
        ProofLeafOutcomeV::Indeterminate(ProofIndeterminateReasonV::Implication)
    } else {
        match doubts.claim {
            Some(reason) => ProofLeafOutcomeV::Indeterminate(reason),
            None => ProofLeafOutcomeV::Stuck,
        }
    }
}

/// What follows a rewrite step.
pub open spec fn rewrite_taken(
    options: ProofOptions,
    progress: ProofProgressV,
    state: ProofStateV,
    doubts: DoubtsV,
    result: RewriteResultV,
) -> ProofMachineV {
    match result {
        RewriteResultV::Finished(applied) => frontier_extended(
            options,
            progress,
            progress.pending.push(state.rewritten(applied)),
            None,
        ),
        RewriteResultV::Branch { branches, remainder, trivial, .. } => trivial_recorded(
            options,
            frontier_extended(
                options,
                progress,
                rewritten_states(state, branches, progress.pending, 0),
                state_left(state, remainder),
            ),
            state,
            trivial,
            0,
        ),
        RewriteResultV::Stuck(_) => recorded(
            options,
            progress,
            state.leaf(stuck_outcome(doubts)),
        ),
        RewriteResultV::Trivial(_) => {
            let next = state.stepped_to(
                state.pattern,
                TraceKind::Rewrite,
                None,
                "trivial"@,
            );
            recorded(
                options,
                progress,
                next.leaf(vacuous_outcome_of(next, options, ProofLeafOutcomeV::Trivial)),
            )
        },
        RewriteResultV::Vacuous(_) => recorded(
            options,
            progress,
            state.leaf(vacuous_outcome_of(state, options, ProofLeafOutcomeV::Vacuous)),
        ),
        RewriteResultV::Indeterminate { reason, .. } => recorded(
            options,
            progress,
            state.leaf(
                ProofLeafOutcomeV::Indeterminate(
                    match reason {
                        IndeterminateReasonV::Simplification { error, .. } => {
                            ProofIndeterminateReasonV::Simplification(error)
                        },
                        reason => ProofIndeterminateReasonV::Rewrite(reason),
                    },
                ),
            ),
        ),
    }
}

#[verifier::spinoff_prover]
fn take_rewrite(
    options: ProofOptions,
    progress: ProofProgress,
    state: ProofState,
    doubts: Doubts,
    result: RewriteResult,
) -> (machine: ProofMachine)
    ensures
        machine@ == rewrite_taken(options, progress@, state@, doubts@, result@),
{
    match result {
        RewriteResult::Finished(applied) => {
            let mut after = progress;
            let mut pending: Vec<ProofState> = Vec::new();
            pending.append(&mut after.pending);
            pending.push(state.rewritten(&applied));
            extend_frontier(options, after, pending, None)
        },
        RewriteResult::Branch { branches, remainder, trivial, .. } => {
            let mut after = progress;
            let mut pending: Vec<ProofState> = Vec::new();
            pending.append(&mut after.pending);
            rewrite_states(&state, &branches, &mut pending);
            let left = leave_state(&state, remainder);
            let machine = extend_frontier(options, after, pending, left);
            record_trivial(options, machine, &state, &trivial)
        },
        RewriteResult::Stuck(_) => {
            let outcome = if doubts.implication {
                ProofLeafOutcome::Indeterminate(ProofIndeterminateReason::Implication)
            } else {
                match doubts.claim {
                    Some(reason) => ProofLeafOutcome::Indeterminate(reason),
                    None => ProofLeafOutcome::Stuck,
                }
            };
            record(options, progress, state.leaf(outcome))
        },
        RewriteResult::Trivial(_) => {
            let next = state.step_to(
                state.pattern.duplicate(),
                TraceKind::Rewrite,
                None,
                "trivial".to_owned(),
            );
            let outcome = vacuous_outcome(&next, options, ProofLeafOutcome::Trivial);
            record(options, progress, next.leaf(outcome))
        },
        RewriteResult::Vacuous(_) => {
            let outcome = vacuous_outcome(&state, options, ProofLeafOutcome::Vacuous);
            record(options, progress, state.leaf(outcome))
        },
        RewriteResult::Indeterminate { reason, .. } => {
            let reason = match reason {
                IndeterminateReason::Simplification { error, .. } => {
                    ProofIndeterminateReason::Simplification(error)
                },
                reason => ProofIndeterminateReason::Rewrite(reason),
            };
            record(options, progress, state.leaf(ProofLeafOutcome::Indeterminate(reason)))
        },
    }
}

// ---------------------------------------------------------------------------------------------
// The machine
// ---------------------------------------------------------------------------------------------
/// The machine after the next piece of work.
#[verifier::opaque]
pub open spec fn advanced<'a, K: Kernel, S: SmtSolver, C: ImplicationChecker<K, S>>(
    config: ProofConfig<'a, K, S, C>,
    machine: ProofMachineV,
) -> ProofMachineV {
    let progress = machine.progress;
    match machine.phase {
        ProofPhaseV::Waiting => taken_up(config, progress),
        ProofPhaseV::Constrained { state, outcome } => constraints_taken(
            config,
            progress,
            state,
            outcome,
        ),
        ProofPhaseV::Simplified { state, outcome } => term_taken(config, progress, state, outcome),
        ProofPhaseV::Implied { state, outcome } => implication_taken(
            config,
            progress,
            state,
            outcome,
        ),
        ProofPhaseV::Claimed { state, doubts, index, outcome } => {
            if index < config.circularities@.len() {
                claim_taken(config, progress, state, doubts, index, outcome)
            } else {
                rules_tried(config, progress, state, doubts)
            }
        },
        ProofPhaseV::Rewritten { state, doubts, result } => rewrite_taken(
            config.options,
            progress,
            state,
            doubts,
            result,
        ),
        ProofPhaseV::Finished(_) => machine,
    }
}

/// The state at hand.
pub open spec fn current_state(phase: ProofPhaseV) -> Option<ProofStateV> {
    match phase {
        ProofPhaseV::Waiting => None,
        ProofPhaseV::Finished(_) => None,
        ProofPhaseV::Constrained { state, .. } => Some(state),
        ProofPhaseV::Simplified { state, .. } => Some(state),
        ProofPhaseV::Implied { state, .. } => Some(state),
        ProofPhaseV::Claimed { state, .. } => Some(state),
        ProofPhaseV::Rewritten { state, .. } => Some(state),
    }
}

/// The machine when the time for a step is up: the work on the state at hand is dropped, and the
/// proof ends.
pub open spec fn timed_out(machine: ProofMachineV, mode: StepTimeoutMode) -> ProofMachineV {
    match current_state(machine.phase) {
        Some(state) => ended(
            with_leaf(machine.progress, state.leaf(ProofLeafOutcomeV::TimedOut(mode))),
        ),
        None => machine,
    }
}

/// The machine for a claim. A trusted claim is proven without a step.
pub open spec fn machine_for<'a, K: Kernel, S: SmtSolver, C: ImplicationChecker<K, S>>(
    config: ProofConfig<'a, K, S, C>,
) -> ProofMachineV {
    let claim = config.claim@;
    let empty = ProofProgressV {
        pending: Seq::empty(),
        leaves: Seq::empty(),
        counter: 0,
        explored: 0,
    };
    let first = ProofStateV { pattern: claim.lhs, depth: 0, trace: Seq::empty() };
    if config.options.max_counterexamples == 0 {
        ProofMachineV {
            progress: empty,
            phase: ProofPhaseV::Finished(Err(ProofErrorV::ZeroCounterexampleLimit)),
        }
    } else if claim.attributes.trusted {
        ProofMachineV {
            progress: empty,
            phase: ProofPhaseV::Finished(
                Ok(
                    ProofResultV {
                        status: ProofStatus::Proven,
                        leaves: seq![first.leaf(ProofLeafOutcomeV::Trusted)],
                        explored_states: 0,
                        unexplored_states: 0,
                    },
                ),
            ),
        }
    } else {
        ProofMachineV {
            progress: ProofProgressV {
                pending: seq![
                    ProofStateV {
                        pattern: PatternV {
                            constraints: unique_extension(
                                claim.lhs.constraints,
                                config.definition.kernel.ceil(claim.lhs.term),
                            ),
                            ..claim.lhs
                        },
                        ..first
                    },
                ],
                ..empty
            },
            phase: ProofPhaseV::Waiting,
        }
    }
}

impl ProofMachine {
    /// Start the proof of a claim.
    #[verifier::spinoff_prover]
    pub fn new<'a, K: Kernel, S: SmtSolver, C: ImplicationChecker<K, S>>(
        config: &ProofConfig<'a, K, S, C>,
    ) -> (machine: Self)
        ensures
            machine@ == machine_for(*config),
    {
        let claim = config.claim;
        let mut progress = ProofProgress {
            pending: Vec::new(),
            leaves: Vec::new(),
            counter: 0,
            explored: 0,
        };
        if config.options.max_counterexamples == 0 {
            return ProofMachine {
                progress,
                phase: ProofPhase::Finished(Err(ProofError::ZeroCounterexampleLimit)),
            };
        }
        if claim.attributes.trusted {
            let mut leaves: Vec<ProofLeaf> = Vec::new();
            leaves.push(
                ProofLeaf {
                    pattern: claim.lhs.duplicate(),
                    depth: 0,
                    trace: Vec::new(),
                    outcome: ProofLeafOutcome::Trusted,
                },
            );
            assert(deep(leaves@) =~= seq![
                (ProofStateV { pattern: claim@.lhs, depth: 0, trace: Seq::empty() }).leaf(
                    ProofLeafOutcomeV::Trusted,
                ),
            ]);
            return ProofMachine {
                progress,
                phase: ProofPhase::Finished(
                    Ok(
                        ProofResult {
                            status: ProofStatus::Proven,
                            leaves,
                            explored_states: 0,
                            unexplored_states: 0,
                        },
                    ),
                ),
            };
        }
        let mut constraints = claim.lhs.constraints.duplicate();
        extend_unique(&mut constraints, config.definition.kernel.ceil_term(&claim.lhs.term));
        let state = ProofState {
            pattern: Pattern { term: claim.lhs.term.duplicate(), constraints },
            depth: 0,
            trace: Vec::new(),
        };
        let ghost expected = seq![state@];
        progress.pending.push(state);
        assert(deep(progress.pending@) =~= expected);
        ProofMachine { progress, phase: ProofPhase::Waiting }
    }

    /// Do the next piece of work.
    #[verifier::spinoff_prover]
    pub fn advance<'a, K: Kernel, S: SmtSolver, C: ImplicationChecker<K, S>>(
        self,
        config: &ProofConfig<'a, K, S, C>,
    ) -> (next: Self)
        ensures
            next@ == advanced(*config, self@),
    {
        reveal(advanced);
        let ProofMachine { progress, phase } = self;
        match phase {
            ProofPhase::Waiting => take_up(config, progress),
            ProofPhase::Constrained { state, outcome } => take_constraints(
                config,
                progress,
                state,
                outcome,
            ),
            ProofPhase::Simplified { state, outcome } => take_term(
                config,
                progress,
                state,
                outcome,
            ),
            ProofPhase::Implied { state, outcome } => take_implication(
                config,
                progress,
                state,
                outcome,
            ),
            ProofPhase::Claimed { state, doubts, index, outcome } => {
                if index < config.circularities.len() {
                    take_claim(config, progress, state, doubts, index, outcome)
                } else {
                    try_rules(config, progress, state, doubts)
                }
            },
            ProofPhase::Rewritten { state, doubts, result } => take_rewrite(
                config.options,
                progress,
                state,
                doubts,
                result,
            ),
            ProofPhase::Finished(result) => ProofMachine {
                progress,
                phase: ProofPhase::Finished(result),
            },
        }
    }

    /// End the proof because the time for a step is up.
    pub fn time_out(self, mode: StepTimeoutMode) -> (next: Self)
        ensures
            next@ == timed_out(self@, mode),
    {
        let ProofMachine { progress, phase } = self;
        let state = match phase {
            ProofPhase::Waiting => {
                return ProofMachine { progress, phase: ProofPhase::Waiting };
            },
            ProofPhase::Finished(result) => {
                return ProofMachine { progress, phase: ProofPhase::Finished(result) };
            },
            ProofPhase::Constrained { state, .. } => state,
            ProofPhase::Simplified { state, .. } => state,
            ProofPhase::Implied { state, .. } => state,
            ProofPhase::Claimed { state, .. } => state,
            ProofPhase::Rewritten { state, .. } => state,
        };
        let mut after = progress;
        after.leaves.push(state.leaf(ProofLeafOutcome::TimedOut(mode)));
        end(after)
    }

    /// Whether the proof has ended.
    pub fn is_finished(&self) -> (result: bool)
        ensures
            result == (self@.phase is Finished),
    {
        matches!(self.phase, ProofPhase::Finished(_))
    }

    /// Whether the next piece of work is to take up a state.
    pub fn is_waiting(&self) -> (result: bool)
        ensures
            result == (self@.phase is Waiting),
    {
        matches!(self.phase, ProofPhase::Waiting)
    }

    /// What the proof gives; of one that has not ended, what it has found, where the state at hand
    /// counts as one that was not explored.
    pub fn into_result(self) -> (result: Result<ProofResult, ProofError>)
        ensures
            result_view(result) == result_of(self@),
    {
        match self.phase {
            ProofPhase::Finished(result) => result,
            ProofPhase::Waiting => Ok(
                finish(
                    self.progress.leaves,
                    self.progress.explored,
                    self.progress.pending.len() as u64,
                ),
            ),
            _ => Ok(
                finish(
                    self.progress.leaves,
                    self.progress.explored,
                    next_depth(self.progress.pending.len() as u64),
                ),
            ),
        }
    }
}

/// What a proof gives; of one that has not ended, what it has found, where the state at hand counts
/// as one that was not explored.
pub open spec fn result_of(machine: ProofMachineV) -> Result<ProofResultV, ProofErrorV> {
    match machine.phase {
        ProofPhaseV::Finished(result) => result,
        ProofPhaseV::Waiting => Ok(
            finished(
                machine.progress.leaves,
                machine.progress.explored,
                machine.progress.pending.len() as u64,
            ),
        ),
        _ => Ok(
            finished(
                machine.progress.leaves,
                machine.progress.explored,
                deeper(machine.progress.pending.len() as u64),
            ),
        ),
    }
}

/// The machine after at most `fuel` pieces of work.
pub open spec fn run<'a, K: Kernel, S: SmtSolver, C: ImplicationChecker<K, S>>(
    config: ProofConfig<'a, K, S, C>,
    machine: ProofMachineV,
    fuel: nat,
) -> ProofMachineV
    decreases fuel,
{
    if fuel == 0 || machine.phase is Finished {
        machine
    } else {
        run(config, advanced(config, machine), (fuel - 1) as nat)
    }
}

/// How many pieces of work a proof may do: no machine does so many.
pub const PROOF_WORK: usize = usize::MAX;

/// What the proof of a claim gives.
pub open spec fn claim_proved<'a, K: Kernel, S: SmtSolver, C: ImplicationChecker<K, S>>(
    config: ProofConfig<'a, K, S, C>,
) -> Result<ProofResultV, ProofErrorV> {
    result_of(run(config, machine_for(config), PROOF_WORK as nat))
}

/// Prove a claim. Behind the first step the other claims may be used, the claim itself among them.
pub fn prove_claim<K: Kernel, S: SmtSolver, C: ImplicationChecker<K, S>>(
    definition: &BackendDefinition<K>,
    claim: &ReachabilityClaim,
    circularities: &Vec<ReachabilityClaim>,
    options: ProofOptions,
    solver: &S,
    checker: &C,
) -> (result: Result<ProofResult, ProofError>)
    ensures
        result_view(result) == claim_proved(
            ProofConfig { definition, solver, checker, claim, circularities, options },
        ),
{
    let config = ProofConfig { definition, solver, checker, claim, circularities, options };
    let mut machine = ProofMachine::new(&config);
    let mut fuel: usize = PROOF_WORK;
    while fuel > 0 && !machine.is_finished()
        invariant
            run(config, machine_for(config), PROOF_WORK as nat) == run(
                config,
                machine@,
                fuel as nat,
            ),
        decreases fuel,
    {
        machine = machine.advance(&config);
        fuel -= 1;
    }
    machine.into_result()
}

} // verus!
