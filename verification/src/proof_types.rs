//! Proofs of reachability claims.

use vstd::prelude::*;
use crate::claims::{ClaimIndeterminateReason, ClaimIndeterminateReasonV};
use crate::execution_parts::{deeper, join_names, joined, next_depth};
use crate::execution_types::{StepTimeoutMode, TraceEntry, TraceEntryV, TraceKind};
use crate::implication::{
    Implication, ImplicationCondition, ImplicationConditionV, ImplicationError, ImplicationErrorV,
};
use crate::model::{deep, group_deep, Value};
use crate::normalize::{normalize_predicate, normalized};
use crate::pattern::{pattern_variables, quantify_introduced_variables, Pattern, PatternV};
use crate::predicate::{Predicate, PredicateV};
use crate::predicates::introduced_quantified;
use crate::rewrite_types::{
    AppliedRule, AppliedRuleV, IndeterminateReason, IndeterminateReasonV, RemainderBranch,
    RemainderBranchV,
};
use crate::simplify_types::{
    Simplification, SimplificationError, SimplificationErrorV,
    DEFAULT_MAX_SIMPLIFICATION_ITERATIONS,
};
use crate::solver::{Satisfiability, SatisfiabilityV, SmtSolver};
use crate::substitution::Substitution;
use crate::truth::{conjunction_truth, predicates_truth, Truth};

verus! {

broadcast use group_deep;

/// The order in which states are taken up.
#[derive(Clone, Copy, Debug, PartialEq, Eq, Structural)]
pub enum ProofSearchOrder {
    BreadthFirst,
    DepthFirst,
}

/// How far a proof goes.
#[derive(Clone, Copy, Debug, PartialEq, Eq)]
pub struct ProofOptions {
    pub max_depth: u64,
    /// The depth from which on a state may be an instance of the destination.
    pub min_depth: u64,
    pub breadth_limit: Option<usize>,
    pub max_counterexamples: usize,
    pub max_simplification_iterations: usize,
    pub allow_vacuous: bool,
    pub search_order: ProofSearchOrder,
    /// Whether a state that matches the destination but for its condition is stuck.
    pub stuck_check: bool,
    /// The time that a step may take, in milliseconds.
    pub step_timeout: Option<u64>,
    pub moving_average_timeout: bool,
}

impl Default for ProofOptions {
    fn default() -> (options: Self)
        ensures
            options.max_depth == u64::MAX,
            options.min_depth == 0,
            options.breadth_limit is None,
            options.max_counterexamples == 1,
            options.max_simplification_iterations == DEFAULT_MAX_SIMPLIFICATION_ITERATIONS,
            !options.allow_vacuous,
            options.search_order == ProofSearchOrder::BreadthFirst,
            options.stuck_check,
            options.step_timeout is None,
            !options.moving_average_timeout,
    {
        ProofOptions {
            max_depth: u64::MAX,
            min_depth: 0,
            breadth_limit: None,
            max_counterexamples: 1,
            max_simplification_iterations: DEFAULT_MAX_SIMPLIFICATION_ITERATIONS,
            allow_vacuous: false,
            search_order: ProofSearchOrder::BreadthFirst,
            stuck_check: true,
            step_timeout: None,
            moving_average_timeout: false,
        }
    }
}

/// How a proof came out.
#[derive(Clone, Copy, Debug, PartialEq, Eq, Structural)]
pub enum ProofStatus {
    Proven,
    Disproved,
    Indeterminate,
    DepthBound,
    BreadthBound,
}

/// Why it is not known what becomes of a state.
#[derive(Debug, PartialEq, Eq)]
pub enum ProofIndeterminateReason {
    Implication,
    Rewrite(IndeterminateReason),
    Simplification(SimplificationError),
    Claim { claim_id: String, reason: ClaimIndeterminateReason },
}

/// The view of [`ProofIndeterminateReason`].
pub enum ProofIndeterminateReasonV {
    Implication,
    Rewrite(IndeterminateReasonV),
    Simplification(SimplificationErrorV),
    Claim { claim_id: Seq<char>, reason: ClaimIndeterminateReasonV },
}

impl View for ProofIndeterminateReason {
    type V = ProofIndeterminateReasonV;

    open spec fn view(&self) -> ProofIndeterminateReasonV {
        match self {
            ProofIndeterminateReason::Implication => ProofIndeterminateReasonV::Implication,
            ProofIndeterminateReason::Rewrite(first) => ProofIndeterminateReasonV::Rewrite(first@),
            ProofIndeterminateReason::Simplification(
                first,
            ) => ProofIndeterminateReasonV::Simplification(first@),
            ProofIndeterminateReason::Claim {
                claim_id,
                reason,
            } => ProofIndeterminateReasonV::Claim { claim_id: claim_id@, reason: reason@ },
        }
    }
}

impl DeepView for ProofIndeterminateReason {
    type V = ProofIndeterminateReasonV;

    open spec fn deep_view(&self) -> ProofIndeterminateReasonV {
        self@
    }
}

impl Value for ProofIndeterminateReason {
    fn duplicate(&self) -> (copy: Self) {
        match self {
            ProofIndeterminateReason::Implication => ProofIndeterminateReason::Implication,
            ProofIndeterminateReason::Rewrite(first) => ProofIndeterminateReason::Rewrite(
                first.duplicate(),
            ),
            ProofIndeterminateReason::Simplification(
                first,
            ) => ProofIndeterminateReason::Simplification(first.duplicate()),
            ProofIndeterminateReason::Claim {
                claim_id,
                reason,
            } => ProofIndeterminateReason::Claim {
                claim_id: claim_id.clone(),
                reason: reason.duplicate(),
            },
        }
    }

    fn equals(&self, other: &Self) -> (same: bool) {
        match (self, other) {
            (ProofIndeterminateReason::Implication, ProofIndeterminateReason::Implication) => true,
            (
                ProofIndeterminateReason::Rewrite(first),
                ProofIndeterminateReason::Rewrite(other_first),
            ) => first.equals(other_first),
            (
                ProofIndeterminateReason::Simplification(first),
                ProofIndeterminateReason::Simplification(other_first),
            ) => first.equals(other_first),
            (
                ProofIndeterminateReason::Claim { claim_id, reason },
                ProofIndeterminateReason::Claim { claim_id: other_claim_id, reason: other_reason },
            ) => *claim_id == *other_claim_id && reason.equals(other_reason),
            _ => false,
        }
    }
}

/// What became of a state.
#[derive(Debug, PartialEq, Eq)]
pub enum ProofLeafOutcome {
    Proven(ImplicationCondition),
    Trusted,
    Stuck,
    Trivial,
    Vacuous,
    DepthBound,
    BreadthBound,
    TimedOut(StepTimeoutMode),
    Indeterminate(ProofIndeterminateReason),
}

/// The view of [`ProofLeafOutcome`].
pub enum ProofLeafOutcomeV {
    Proven(ImplicationConditionV),
    Trusted,
    Stuck,
    Trivial,
    Vacuous,
    DepthBound,
    BreadthBound,
    TimedOut(StepTimeoutMode),
    Indeterminate(ProofIndeterminateReasonV),
}

impl View for ProofLeafOutcome {
    type V = ProofLeafOutcomeV;

    open spec fn view(&self) -> ProofLeafOutcomeV {
        match self {
            ProofLeafOutcome::Proven(first) => ProofLeafOutcomeV::Proven(first@),
            ProofLeafOutcome::Trusted => ProofLeafOutcomeV::Trusted,
            ProofLeafOutcome::Stuck => ProofLeafOutcomeV::Stuck,
            ProofLeafOutcome::Trivial => ProofLeafOutcomeV::Trivial,
            ProofLeafOutcome::Vacuous => ProofLeafOutcomeV::Vacuous,
            ProofLeafOutcome::DepthBound => ProofLeafOutcomeV::DepthBound,
            ProofLeafOutcome::BreadthBound => ProofLeafOutcomeV::BreadthBound,
            ProofLeafOutcome::TimedOut(first) => ProofLeafOutcomeV::TimedOut(*first),
            ProofLeafOutcome::Indeterminate(first) => ProofLeafOutcomeV::Indeterminate(first@),
        }
    }
}

impl DeepView for ProofLeafOutcome {
    type V = ProofLeafOutcomeV;

    open spec fn deep_view(&self) -> ProofLeafOutcomeV {
        self@
    }
}

impl Value for ProofLeafOutcome {
    fn duplicate(&self) -> (copy: Self) {
        match self {
            ProofLeafOutcome::Proven(first) => ProofLeafOutcome::Proven(first.duplicate()),
            ProofLeafOutcome::Trusted => ProofLeafOutcome::Trusted,
            ProofLeafOutcome::Stuck => ProofLeafOutcome::Stuck,
            ProofLeafOutcome::Trivial => ProofLeafOutcome::Trivial,
            ProofLeafOutcome::Vacuous => ProofLeafOutcome::Vacuous,
            ProofLeafOutcome::DepthBound => ProofLeafOutcome::DepthBound,
            ProofLeafOutcome::BreadthBound => ProofLeafOutcome::BreadthBound,
            ProofLeafOutcome::TimedOut(first) => ProofLeafOutcome::TimedOut(*first),
            ProofLeafOutcome::Indeterminate(first) => ProofLeafOutcome::Indeterminate(
                first.duplicate(),
            ),
        }
    }

    fn equals(&self, other: &Self) -> (same: bool) {
        match (self, other) {
            (
                ProofLeafOutcome::Proven(first),
                ProofLeafOutcome::Proven(other_first),
            ) => first.equals(other_first),
            (ProofLeafOutcome::Trusted, ProofLeafOutcome::Trusted) => true,
            (ProofLeafOutcome::Stuck, ProofLeafOutcome::Stuck) => true,
            (ProofLeafOutcome::Trivial, ProofLeafOutcome::Trivial) => true,
            (ProofLeafOutcome::Vacuous, ProofLeafOutcome::Vacuous) => true,
            (ProofLeafOutcome::DepthBound, ProofLeafOutcome::DepthBound) => true,
            (ProofLeafOutcome::BreadthBound, ProofLeafOutcome::BreadthBound) => true,
            (
                ProofLeafOutcome::TimedOut(first),
                ProofLeafOutcome::TimedOut(other_first),
            ) => *first == *other_first,
            (
                ProofLeafOutcome::Indeterminate(first),
                ProofLeafOutcome::Indeterminate(other_first),
            ) => first.equals(other_first),
            _ => false,
        }
    }
}

/// A state at which a proof ends.
#[derive(Debug, PartialEq, Eq)]
pub struct ProofLeaf {
    pub pattern: Pattern,
    pub depth: u64,
    pub trace: Vec<TraceEntry>,
    pub outcome: ProofLeafOutcome,
}

/// The view of [`ProofLeaf`].
pub struct ProofLeafV {
    pub pattern: PatternV,
    pub depth: u64,
    pub trace: Seq<TraceEntryV>,
    pub outcome: ProofLeafOutcomeV,
}

impl View for ProofLeaf {
    type V = ProofLeafV;

    open spec fn view(&self) -> ProofLeafV {
        ProofLeafV {
            pattern: self.pattern@,
            depth: self.depth,
            trace: deep(self.trace@),
            outcome: self.outcome@,
        }
    }
}

impl DeepView for ProofLeaf {
    type V = ProofLeafV;

    open spec fn deep_view(&self) -> ProofLeafV {
        self@
    }
}

impl Value for ProofLeaf {
    fn duplicate(&self) -> (copy: Self) {
        ProofLeaf {
            pattern: self.pattern.duplicate(),
            depth: self.depth,
            trace: self.trace.duplicate(),
            outcome: self.outcome.duplicate(),
        }
    }

    fn equals(&self, other: &Self) -> (same: bool) {
        self.pattern.equals(&other.pattern)
            && self.depth == other.depth
            && self.trace.equals(&other.trace)
            && self.outcome.equals(&other.outcome)
    }
}

/// What a proof gives.
#[derive(Debug, PartialEq, Eq)]
pub struct ProofResult {
    pub status: ProofStatus,
    pub leaves: Vec<ProofLeaf>,
    pub explored_states: u64,
    pub unexplored_states: u64,
}

/// The view of [`ProofResult`].
pub struct ProofResultV {
    pub status: ProofStatus,
    pub leaves: Seq<ProofLeafV>,
    pub explored_states: u64,
    pub unexplored_states: u64,
}

impl View for ProofResult {
    type V = ProofResultV;

    open spec fn view(&self) -> ProofResultV {
        ProofResultV {
            status: self.status,
            leaves: deep(self.leaves@),
            explored_states: self.explored_states,
            unexplored_states: self.unexplored_states,
        }
    }
}

impl DeepView for ProofResult {
    type V = ProofResultV;

    open spec fn deep_view(&self) -> ProofResultV {
        self@
    }
}

impl Value for ProofResult {
    fn duplicate(&self) -> (copy: Self) {
        ProofResult {
            status: self.status,
            leaves: self.leaves.duplicate(),
            explored_states: self.explored_states,
            unexplored_states: self.unexplored_states,
        }
    }

    fn equals(&self, other: &Self) -> (same: bool) {
        self.status == other.status
            && self.leaves.equals(&other.leaves)
            && self.explored_states == other.explored_states
            && self.unexplored_states == other.unexplored_states
    }
}

/// Why there is no proof.
#[derive(Debug, PartialEq, Eq)]
pub enum ProofError {
    Implication(ImplicationError),
    ZeroCounterexampleLimit,
}

/// The view of [`ProofError`].
pub enum ProofErrorV {
    Implication(ImplicationErrorV),
    ZeroCounterexampleLimit,
}

impl View for ProofError {
    type V = ProofErrorV;

    open spec fn view(&self) -> ProofErrorV {
        match self {
            ProofError::Implication(first) => ProofErrorV::Implication(first@),
            ProofError::ZeroCounterexampleLimit => ProofErrorV::ZeroCounterexampleLimit,
        }
    }
}

impl DeepView for ProofError {
    type V = ProofErrorV;

    open spec fn deep_view(&self) -> ProofErrorV {
        self@
    }
}

impl Value for ProofError {
    fn duplicate(&self) -> (copy: Self) {
        match self {
            ProofError::Implication(first) => ProofError::Implication(first.duplicate()),
            ProofError::ZeroCounterexampleLimit => ProofError::ZeroCounterexampleLimit,
        }
    }

    fn equals(&self, other: &Self) -> (same: bool) {
        match (self, other) {
            (ProofError::Implication(first), ProofError::Implication(other_first)) => first.equals(
                other_first,
            ),
            (ProofError::ZeroCounterexampleLimit, ProofError::ZeroCounterexampleLimit) => true,
            _ => false,
        }
    }
}

/// A state that a proof goes on from.
#[derive(Debug, PartialEq, Eq)]
pub struct ProofState {
    pub pattern: Pattern,
    pub depth: u64,
    pub trace: Vec<TraceEntry>,
}

/// The view of [`ProofState`].
pub struct ProofStateV {
    pub pattern: PatternV,
    pub depth: u64,
    pub trace: Seq<TraceEntryV>,
}

impl View for ProofState {
    type V = ProofStateV;

    open spec fn view(&self) -> ProofStateV {
        ProofStateV {
            pattern: self.pattern@,
            depth: self.depth,
            trace: deep(self.trace@),
        }
    }
}

impl DeepView for ProofState {
    type V = ProofStateV;

    open spec fn deep_view(&self) -> ProofStateV {
        self@
    }
}

impl Value for ProofState {
    fn duplicate(&self) -> (copy: Self) {
        ProofState {
            pattern: self.pattern.duplicate(),
            depth: self.depth,
            trace: self.trace.duplicate(),
        }
    }

    fn equals(&self, other: &Self) -> (same: bool) {
        self.pattern.equals(&other.pattern)
            && self.depth == other.depth
            && self.trace.equals(&other.trace)
    }
}

// ---------------------------------------------------------------------------------------------
// States
// ---------------------------------------------------------------------------------------------
impl ProofStateV {
    /// The leaf at this state.
    pub open spec fn leaf(self, outcome: ProofLeafOutcomeV) -> ProofLeafV {
        ProofLeafV { pattern: self.pattern, depth: self.depth, trace: self.trace, outcome }
    }

    /// The state one step deeper, with a pattern and an entry of the trace.
    pub open spec fn stepped_to(
        self,
        pattern: PatternV,
        kind: TraceKind,
        label: Option<Seq<char>>,
        unique_id: Seq<char>,
    ) -> Self {
        ProofStateV {
            pattern,
            depth: deeper(self.depth),
            trace: self.trace.push(
                TraceEntryV { depth: deeper(self.depth), kind, label, unique_id },
            ),
        }
    }

    /// The state behind a rule.
    pub open spec fn rewritten(self, applied: AppliedRuleV) -> Self {
        self.stepped_to(applied.pattern, TraceKind::Rewrite, applied.label, applied.unique_id)
    }

    /// The state that rules, or a claim, leave.
    pub open spec fn remaining(self, remainder: RemainderBranchV) -> Self {
        ProofStateV {
            pattern: remainder.pattern,
            depth: self.depth,
            trace: self.trace.push(
                TraceEntryV {
                    depth: self.depth,
                    kind: TraceKind::Remainder,
                    label: None,
                    unique_id: joined(remainder.rule_ids, Seq::empty(), 0),
                },
            ),
        }
    }

    /// Whether this is the state that the proof started from.
    pub open spec fn is_first(self) -> bool {
        self.depth == 0 && self.trace.len() == 0
    }
}

impl ProofState {
    pub(crate) fn leaf(self, outcome: ProofLeafOutcome) -> (leaf: ProofLeaf)
        ensures
            leaf@ == self@.leaf(outcome@),
    {
        ProofLeaf { pattern: self.pattern, depth: self.depth, trace: self.trace, outcome }
    }

    pub(crate) fn step_to(
        &self,
        pattern: Pattern,
        kind: TraceKind,
        label: Option<String>,
        unique_id: String,
    ) -> (next: Self)
        ensures
            next@ == self@.stepped_to(pattern@, kind, label.deep_view(), unique_id@),
    {
        let depth = next_depth(self.depth);
        let mut trace = self.trace.duplicate();
        trace.push(TraceEntry { depth, kind, label, unique_id });
        ProofState { pattern, depth, trace }
    }

    pub(crate) fn rewritten(&self, applied: &AppliedRule) -> (next: Self)
        ensures
            next@ == self@.rewritten(applied@),
    {
        self.step_to(
            applied.pattern.duplicate(),
            TraceKind::Rewrite,
            applied.label.duplicate(),
            applied.unique_id.duplicate(),
        )
    }

    pub(crate) fn remaining(&self, remainder: RemainderBranch) -> (next: Self)
        ensures
            next@ == self@.remaining(remainder@),
    {
        let mut trace = self.trace.duplicate();
        trace.push(
            TraceEntry {
                depth: self.depth,
                kind: TraceKind::Remainder,
                label: None,
                unique_id: join_names(&remainder.rule_ids),
            },
        );
        ProofState { pattern: remainder.pattern, depth: self.depth, trace }
    }

    pub(crate) fn is_first(&self) -> (result: bool)
        ensures
            result == self@.is_first(),
    {
        self.depth == 0 && self.trace.len() == 0
    }
}

// ---------------------------------------------------------------------------------------------
// Results
// ---------------------------------------------------------------------------------------------
/// Whether a leaf is proven.
pub open spec fn proven(leaf: ProofLeafV) -> bool {
    leaf.outcome is Proven || leaf.outcome is Trusted
}

/// Whether a leaf disproves the claim.
pub open spec fn disproves(leaf: ProofLeafV) -> bool {
    leaf.outcome is Stuck || leaf.outcome is Trivial || leaf.outcome is Vacuous
}

/// Whether it is not known what becomes of a leaf.
pub open spec fn undecided_leaf(leaf: ProofLeafV) -> bool {
    leaf.outcome is TimedOut || leaf.outcome is Indeterminate
}

/// The number of leaves among the first `count` that are not proven.
pub open spec fn counterexamples(leaves: Seq<ProofLeafV>, count: int) -> nat
    decreases count,
{
    if count <= 0 {
        0
    } else {
        counterexamples(leaves, count - 1) + if proven(leaves[count - 1]) {
            0nat
        } else {
            1nat
        }
    }
}

/// How a proof with the given leaves came out: a leaf that disproves the claim decides, then one
/// that is open, then the bounds. Only where no state is left, and all leaves are proven, is the
/// claim.
pub open spec fn status_of(leaves: Seq<ProofLeafV>, unexplored: u64) -> ProofStatus {
    if exists|i: int| 0 <= i < leaves.len() && disproves(#[trigger] leaves[i]) {
        ProofStatus::Disproved
    } else if exists|i: int| 0 <= i < leaves.len() && undecided_leaf(#[trigger] leaves[i]) {
        ProofStatus::Indeterminate
    } else if exists|i: int| 0 <= i < leaves.len() && (#[trigger] leaves[i]).outcome is DepthBound {
        ProofStatus::DepthBound
    } else if exists|i: int| 0 <= i < leaves.len() && (#[trigger] leaves[i]).outcome is BreadthBound {
        ProofStatus::BreadthBound
    } else if unexplored > 0 {
        ProofStatus::Indeterminate
    } else {
        ProofStatus::Proven
    }
}

/// The result of a proof.
pub open spec fn finished(
    leaves: Seq<ProofLeafV>,
    explored: u64,
    unexplored: u64,
) -> ProofResultV {
    ProofResultV {
        status: status_of(leaves, unexplored),
        leaves,
        explored_states: explored,
        unexplored_states: unexplored,
    }
}

pub(crate) fn is_proven(leaf: &ProofLeaf) -> (result: bool)
    ensures
        result == proven(leaf@),
{
    matches!(leaf.outcome, ProofLeafOutcome::Proven(_) | ProofLeafOutcome::Trusted)
}

/// The result of a proof with the given leaves.
pub fn finish(leaves: Vec<ProofLeaf>, explored_states: u64, unexplored_states: u64) -> (result:
    ProofResult)
    ensures
        result@ == finished(deep(leaves@), explored_states, unexplored_states),
{
    let mut disproved = false;
    let mut indeterminate = false;
    let mut depth_bound = false;
    let mut breadth_bound = false;
    let mut i: usize = 0;
    while i < leaves.len()
        invariant
            i <= leaves.len(),
            disproved == exists|k: int| 0 <= k < i && disproves(#[trigger] deep(leaves@)[k]),
            indeterminate == exists|k: int|
                0 <= k < i && undecided_leaf(#[trigger] deep(leaves@)[k]),
            depth_bound == exists|k: int|
                0 <= k < i && (#[trigger] deep(leaves@)[k]).outcome is DepthBound,
            breadth_bound == exists|k: int|
                0 <= k < i && (#[trigger] deep(leaves@)[k]).outcome is BreadthBound,
        decreases leaves.len() - i,
    {
        assert(deep(leaves@)[i as int] == leaves[i as int]@);
        match &leaves[i].outcome {
            ProofLeafOutcome::Stuck | ProofLeafOutcome::Trivial | ProofLeafOutcome::Vacuous => {
                disproved = true;
            },
            ProofLeafOutcome::TimedOut(_) | ProofLeafOutcome::Indeterminate(_) => {
                indeterminate = true;
            },
            ProofLeafOutcome::DepthBound => {
                depth_bound = true;
            },
            ProofLeafOutcome::BreadthBound => {
                breadth_bound = true;
            },
            ProofLeafOutcome::Proven(_) | ProofLeafOutcome::Trusted => {},
        }
        i += 1;
    }
    let status = if disproved {
        ProofStatus::Disproved
    } else if indeterminate {
        ProofStatus::Indeterminate
    } else if depth_bound {
        ProofStatus::DepthBound
    } else if breadth_bound {
        ProofStatus::BreadthBound
    } else if unexplored_states > 0 {
        ProofStatus::Indeterminate
    } else {
        ProofStatus::Proven
    };
    ProofResult { status, leaves, explored_states, unexplored_states }
}

/// A claim counts as proven only where no state is left and every leaf is proven.
pub proof fn law_proven_means_all_proven(leaves: Seq<ProofLeafV>, explored: u64, unexplored: u64)
    ensures
        finished(leaves, explored, unexplored).status is Proven <==> unexplored == 0 && forall|
            i: int,
        |
            0 <= i < leaves.len() ==> proven(#[trigger] leaves[i]),
{
    if unexplored == 0 && forall|i: int| 0 <= i < leaves.len() ==> proven(#[trigger] leaves[i]) {
        assert forall|i: int| 0 <= i < leaves.len() implies !disproves(#[trigger] leaves[i])
            && !undecided_leaf(leaves[i]) && !(leaves[i].outcome is DepthBound) && !(
        leaves[i].outcome is BreadthBound) by {
            assert(proven(leaves[i]));
        }
    }
    if finished(leaves, explored, unexplored).status is Proven {
        assert forall|i: int| 0 <= i < leaves.len() implies proven(#[trigger] leaves[i]) by {
            assert(!disproves(leaves[i]));
            assert(!undecided_leaf(leaves[i]));
            assert(!(leaves[i].outcome is DepthBound));
            assert(!(leaves[i].outcome is BreadthBound));
        }
    }
}

/// A leaf that is stuck, trivial or vacuous disproves a claim, whatever the other leaves are.
pub proof fn law_counterexample_disproves(
    leaves: Seq<ProofLeafV>,
    explored: u64,
    unexplored: u64,
    at: int,
)
    requires
        0 <= at < leaves.len(),
        disproves(leaves[at]),
    ensures
        finished(leaves, explored, unexplored).status is Disproved,
{
}

// ---------------------------------------------------------------------------------------------
// Outcomes of states
// ---------------------------------------------------------------------------------------------
/// The outcome of a state without an instance: it is proven where the proof started from it, or
/// where such states are allowed, and else has the given outcome.
pub open spec fn vacuous_outcome_of(
    state: ProofStateV,
    options: ProofOptions,
    cause: ProofLeafOutcomeV,
) -> ProofLeafOutcomeV {
    if state.is_first() || options.allow_vacuous {
        ProofLeafOutcomeV::Proven(
            ImplicationConditionV {
                predicates: seq![PredicateV::False],
                substitution: Seq::empty(),
                witnesses: Seq::empty(),
            },
        )
    } else {
        cause
    }
}

pub(crate) fn vacuous_outcome(state: &ProofState, options: ProofOptions, cause: ProofLeafOutcome) -> (result:
    ProofLeafOutcome)
    ensures
        result@ == vacuous_outcome_of(state@, options, cause@),
{
    if state.is_first() || options.allow_vacuous {
        let mut predicates: Vec<Predicate> = Vec::new();
        predicates.push(Predicate::constant(false));
        assert(deep(predicates@) =~= seq![PredicateV::False]);
        ProofLeafOutcome::Proven(
            ImplicationCondition {
                predicates,
                substitution: Substitution::new(),
                witnesses: Substitution::new(),
            },
        )
    } else {
        cause
    }
}

/// Whether a state has no instance.
pub open spec fn is_bottom<S: SmtSolver>(solver: &S, state: ProofStateV) -> bool {
    conjunction_truth(state.pattern.constraints) is False || (match solver.satisfiability(
        state.pattern.constraints,
        Seq::empty(),
    ) {
        Ok(SatisfiabilityV::Unsat) => true,
        _ => false,
    })
}

pub(crate) fn state_is_bottom<S: SmtSolver>(state: &ProofState, solver: &S) -> (result: bool)
    ensures
        result == is_bottom(solver, state@),
{
    if matches!(predicates_truth(&state.pattern.constraints), Truth::False) {
        return true;
    }
    match solver.is_sat(&state.pattern.constraints, &Substitution::new()) {
        Ok(Satisfiability::Unsat) => true,
        _ => false,
    }
}

/// The case that a destination does not cover, where it covers a state under a condition.
pub open spec fn complement_of_condition(
    pattern: PatternV,
    condition: ImplicationConditionV,
) -> PredicateV {
    normalized(
        PredicateV::Not(
            Box::new(introduced_quantified(pattern_variables(pattern), condition.predicates)),
        ),
    )
}

/// The case that a destination does not cover.
pub fn complement_implication_condition(pattern: &Pattern, condition: ImplicationCondition) -> (result:
    Predicate)
    ensures
        result@ == complement_of_condition(pattern@, condition@),
{
    let covered = quantify_introduced_variables(pattern, condition.predicates);
    normalize_predicate(&Predicate::negation(covered))
}

} // verus!
