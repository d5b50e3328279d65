//! The states, the trace and the results of an execution.

use vstd::prelude::*;
use crate::kernel::{BuiltinEffect, BuiltinEffectV};
use crate::model::{contains, deep, group_deep, Value};
use crate::ops::{term_key, Keyed};
use crate::pattern::{Pattern, PatternV};
use crate::predicate::Predicate;
use crate::rewrite_types::{
    AppliedRule, AppliedRuleV, IndeterminateReason, IndeterminateReasonV, RemainderBranch,
    RemainderBranchV,
};
use crate::simplify_types::{
    SimplificationError, SimplificationErrorV, DEFAULT_MAX_SIMPLIFICATION_ITERATIONS,
};
use crate::step::ExecutionMode;

verus! {

broadcast use group_deep;

// ---------------------------------------------------------------------------------------------
// Options
// ---------------------------------------------------------------------------------------------
/// What happens where a step has several outcomes.
#[derive(Clone, Copy, Debug, PartialEq, Eq, Structural)]
pub enum ExecutionBranchMode {
    StopAtBranch,
    ExploreAll,
}

/// Which of the time limits of a step was exceeded.
#[derive(Clone, Copy, Debug, PartialEq, Eq, Structural)]
pub enum StepTimeoutMode {
    /// The limit of the options, in milliseconds.
    Manual(u64),
    /// The limit that follows the time of the earlier steps.
    MovingAverage,
}

/// How far an execution goes and where it stops.
#[derive(Debug, PartialEq, Eq)]
pub struct ExecutionOptions {
    pub max_depth: u64,
    pub max_breadth: Option<usize>,
    pub max_simplification_iterations: usize,
    pub mode: ExecutionMode,
    pub branch_mode: ExecutionBranchMode,
    /// Labels or identities of rules before which the execution stops.
    pub cut_point_rules: Vec<String>,
    /// Labels or identities of rules behind which the execution stops.
    pub terminal_rules: Vec<String>,
    /// The time that a step may take, in milliseconds.
    pub step_timeout: Option<u64>,
    pub moving_average_timeout: bool,
    /// Whether the configuration and its subterms are taken to be defined while rules are matched.
    pub assume_initial_defined: bool,
}

impl Default for ExecutionOptions {
    fn default() -> (options: Self)
        ensures
            options.max_depth == u64::MAX,
            options.max_breadth is None,
            options.max_simplification_iterations == DEFAULT_MAX_SIMPLIFICATION_ITERATIONS,
            options.mode == ExecutionMode::All,
            options.branch_mode == ExecutionBranchMode::ExploreAll,
            options.cut_point_rules@.len() == 0,
            options.terminal_rules@.len() == 0,
            options.step_timeout is None,
            !options.moving_average_timeout,
            !options.assume_initial_defined,
    {
        ExecutionOptions {
            max_depth: u64::MAX,
            max_breadth: None,
            max_simplification_iterations: DEFAULT_MAX_SIMPLIFICATION_ITERATIONS,
            mode: ExecutionMode::All,
            branch_mode: ExecutionBranchMode::ExploreAll,
            cut_point_rules: Vec::new(),
            terminal_rules: Vec::new(),
            step_timeout: None,
            moving_average_timeout: false,
            assume_initial_defined: false,
        }
    }
}

/// Which rules are observed.
#[derive(Debug, PartialEq, Eq)]
pub struct ObservationOptions {
    /// The identities of the rules, or nothing for all rules.
    pub rules: Option<Vec<String>>,
}

impl ObservationOptions {
    /// Whether the rule with the given identity is observed.
    pub open spec fn spec_observes(&self, id: Seq<char>) -> bool {
        self.rules is None || deep(self.rules->0@).contains(id)
    }

    /// Whether the rule `id` is observed.
    pub fn observes(&self, id: &String) -> (result: bool)
        ensures
            result == self.spec_observes(id@),
    {
        match &self.rules {
            None => true,
            Some(rules) => contains(rules, id),
        }
    }
}

// ---------------------------------------------------------------------------------------------
// Traces and observations
// ---------------------------------------------------------------------------------------------
/// What an entry of a trace stands for.
#[derive(Clone, Copy, Debug, PartialEq, Eq, Structural)]
pub enum TraceKind {
    Simplification,
    Rewrite,
    Claim,
    Remainder,
}

/// A rule on the way to a state.
#[derive(Debug, PartialEq, Eq)]
pub struct TraceEntry {
    pub depth: u64,
    pub kind: TraceKind,
    pub label: Option<String>,
    pub unique_id: String,
}

/// The view of [`TraceEntry`].
pub struct TraceEntryV {
    pub depth: u64,
    pub kind: TraceKind,
    pub label: Option<Seq<char>>,
    pub unique_id: Seq<char>,
}

impl View for TraceEntry {
    type V = TraceEntryV;

    open spec fn view(&self) -> TraceEntryV {
        TraceEntryV {
            depth: self.depth,
            kind: self.kind,
            label: self.label.deep_view(),
            unique_id: self.unique_id@,
        }
    }
}

impl DeepView for TraceEntry {
    type V = TraceEntryV;

    open spec fn deep_view(&self) -> TraceEntryV {
        self@
    }
}

impl Value for TraceEntry {
    fn duplicate(&self) -> (copy: Self) {
        TraceEntry {
            depth: self.depth,
            kind: self.kind,
            label: self.label.duplicate(),
            unique_id: self.unique_id.clone(),
        }
    }

    fn equals(&self, other: &Self) -> (same: bool) {
        self.depth == other.depth
            && self.kind == other.kind
            && self.label.equals(&other.label)
            && self.unique_id == other.unique_id
    }
}

/// A word for each part of a pattern, the same for equal patterns.
#[derive(Debug, PartialEq, Eq)]
pub struct PatternDigest {
    pub words: Vec<u32>,
}

/// The view of [`PatternDigest`].
pub struct PatternDigestV {
    pub words: Seq<u32>,
}

impl View for PatternDigest {
    type V = PatternDigestV;

    open spec fn view(&self) -> PatternDigestV {
        PatternDigestV {
            words: deep(self.words@),
        }
    }
}

impl DeepView for PatternDigest {
    type V = PatternDigestV;

    open spec fn deep_view(&self) -> PatternDigestV {
        self@
    }
}

impl Value for PatternDigest {
    fn duplicate(&self) -> (copy: Self) {
        PatternDigest {
            words: self.words.duplicate(),
        }
    }

    fn equals(&self, other: &Self) -> (same: bool) {
        self.words.equals(&other.words)
    }
}

/// A transition: the rule, and the pattern that it leads to.
#[derive(Debug, PartialEq, Eq)]
pub struct TransitionId {
    pub rule: String,
    pub target: PatternDigest,
}

/// The view of [`TransitionId`].
pub struct TransitionIdV {
    pub rule: Seq<char>,
    pub target: PatternDigestV,
}

impl View for TransitionId {
    type V = TransitionIdV;

    open spec fn view(&self) -> TransitionIdV {
        TransitionIdV {
            rule: self.rule@,
            target: self.target@,
        }
    }
}

impl DeepView for TransitionId {
    type V = TransitionIdV;

    open spec fn deep_view(&self) -> TransitionIdV {
        self@
    }
}

impl Value for TransitionId {
    fn duplicate(&self) -> (copy: Self) {
        TransitionId {
            rule: self.rule.clone(),
            target: self.target.duplicate(),
        }
    }

    fn equals(&self, other: &Self) -> (same: bool) {
        self.rule == other.rule
            && self.target.equals(&other.target)
    }
}

/// An event on the way to a state.
#[derive(Debug, PartialEq, Eq)]
pub enum ObservationEvent {
    Simplified { before: Pattern, after: Pattern, rules: Vec<String>, effects: Vec<BuiltinEffect> },
    Applied { id: TransitionId, applied: AppliedRule },
    Remained { id: TransitionId, before: Pattern, remainder: RemainderBranch },
}

/// The view of [`ObservationEvent`].
pub enum ObservationEventV {
    Simplified {
        before: PatternV,
        after: PatternV,
        rules: Seq<Seq<char>>,
        effects: Seq<BuiltinEffectV>,
    },
    Applied { id: TransitionIdV, applied: AppliedRuleV },
    Remained { id: TransitionIdV, before: PatternV, remainder: RemainderBranchV },
}

impl View for ObservationEvent {
    type V = ObservationEventV;

    open spec fn view(&self) -> ObservationEventV {
        match self {
            ObservationEvent::Simplified {
                before,
                after,
                rules,
                effects,
            } => ObservationEventV::Simplified {
                before: before@,
                after: after@,
                rules: deep(rules@),
                effects: deep(effects@),
            },
            ObservationEvent::Applied { id, applied } => ObservationEventV::Applied {
                id: id@,
                applied: applied@,
            },
            ObservationEvent::Remained { id, before, remainder } => ObservationEventV::Remained {
                id: id@,
                before: before@,
                remainder: remainder@,
            },
        }
    }
}

impl DeepView for ObservationEvent {
    type V = ObservationEventV;

    open spec fn deep_view(&self) -> ObservationEventV {
        self@
    }
}

impl Value for ObservationEvent {
    fn duplicate(&self) -> (copy: Self) {
        match self {
            ObservationEvent::Simplified {
                before,
                after,
                rules,
                effects,
            } => ObservationEvent::Simplified {
                before: before.duplicate(),
                after: after.duplicate(),
                rules: rules.duplicate(),
                effects: effects.duplicate(),
            },
            ObservationEvent::Applied { id, applied } => ObservationEvent::Applied {
                id: id.duplicate(),
                applied: applied.duplicate(),
            },
            ObservationEvent::Remained { id, before, remainder } => ObservationEvent::Remained {
                id: id.duplicate(),
                before: before.duplicate(),
                remainder: remainder.duplicate(),
            },
        }
    }

    fn equals(&self, other: &Self) -> (same: bool) {
        match (self, other) {
            (
                ObservationEvent::Simplified { before, after, rules, effects },
                ObservationEvent::Simplified {
                    before: other_before,
                    after: other_after,
                    rules: other_rules,
                    effects: other_effects,
                },
            ) => before.equals(other_before)
                && after.equals(other_after)
                && rules.equals(other_rules)
                && effects.equals(other_effects),
            (
                ObservationEvent::Applied { id, applied },
                ObservationEvent::Applied { id: other_id, applied: other_applied },
            ) => id.equals(other_id) && applied.equals(other_applied),
            (
                ObservationEvent::Remained { id, before, remainder },
                ObservationEvent::Remained {
                    id: other_id,
                    before: other_before,
                    remainder: other_remainder,
                },
            ) => id.equals(other_id) && before.equals(other_before) && remainder.equals(other_remainder),
            _ => false,
        }
    }
}

/// The transitions and the observed events on the way to a state.
#[derive(Debug, PartialEq, Eq)]
pub struct ObservationPath {
    pub branch: Vec<TransitionId>,
    pub events: Vec<ObservationEvent>,
}

/// The view of [`ObservationPath`].
pub struct ObservationPathV {
    pub branch: Seq<TransitionIdV>,
    pub events: Seq<ObservationEventV>,
}

impl View for ObservationPath {
    type V = ObservationPathV;

    open spec fn view(&self) -> ObservationPathV {
        ObservationPathV {
            branch: deep(self.branch@),
            events: deep(self.events@),
        }
    }
}

impl DeepView for ObservationPath {
    type V = ObservationPathV;

    open spec fn deep_view(&self) -> ObservationPathV {
        self@
    }
}

impl Value for ObservationPath {
    fn duplicate(&self) -> (copy: Self) {
        ObservationPath {
            branch: self.branch.duplicate(),
            events: self.events.duplicate(),
        }
    }

    fn equals(&self, other: &Self) -> (same: bool) {
        self.branch.equals(&other.branch)
            && self.events.equals(&other.events)
    }
}

/// Why a transition belongs to no branch.
#[derive(Clone, Copy, Debug, PartialEq, Eq, Structural)]
pub enum UncommittedReason {
    RolledBack,
}

/// A transition that was tried and belongs to no branch.
#[derive(Debug, PartialEq, Eq)]
pub struct UncommittedObservation {
    pub id: TransitionId,
    pub rule_label: Option<String>,
    pub effects: Vec<BuiltinEffect>,
    pub reason: UncommittedReason,
}

/// The view of [`UncommittedObservation`].
pub struct UncommittedObservationV {
    pub id: TransitionIdV,
    pub rule_label: Option<Seq<char>>,
    pub effects: Seq<BuiltinEffectV>,
    pub reason: UncommittedReason,
}

impl View for UncommittedObservation {
    type V = UncommittedObservationV;

    open spec fn view(&self) -> UncommittedObservationV {
        UncommittedObservationV {
            id: self.id@,
            rule_label: self.rule_label.deep_view(),
            effects: deep(self.effects@),
            reason: self.reason,
        }
    }
}

impl DeepView for UncommittedObservation {
    type V = UncommittedObservationV;

    open spec fn deep_view(&self) -> UncommittedObservationV {
        self@
    }
}

impl Value for UncommittedObservation {
    fn duplicate(&self) -> (copy: Self) {
        UncommittedObservation {
            id: self.id.duplicate(),
            rule_label: self.rule_label.duplicate(),
            effects: self.effects.duplicate(),
            reason: self.reason,
        }
    }

    fn equals(&self, other: &Self) -> (same: bool) {
        self.id.equals(&other.id)
            && self.rule_label.equals(&other.rule_label)
            && self.effects.equals(&other.effects)
            && self.reason == other.reason
    }
}

/// Why an execution stopped.
#[derive(Debug, PartialEq, Eq)]
pub enum HaltReason {
    Cancelled,
    Stuck,
    Trivial,
    Vacuous,
    Branch { branches: Vec<AppliedRule>, remainder: Option<RemainderBranch> },
    CutPointRule { rule: String, next_states: Vec<AppliedRule> },
    TerminalRule { rule: String },
    DepthBound,
    BreadthBound,
    Indeterminate(IndeterminateReason),
    Simplification(SimplificationError),
    Timeout(StepTimeoutMode),
}

/// The view of [`HaltReason`].
pub enum HaltReasonV {
    Cancelled,
    Stuck,
    Trivial,
    Vacuous,
    Branch { branches: Seq<AppliedRuleV>, remainder: Option<RemainderBranchV> },
    CutPointRule { rule: Seq<char>, next_states: Seq<AppliedRuleV> },
    TerminalRule { rule: Seq<char> },
    DepthBound,
    BreadthBound,
    Indeterminate(IndeterminateReasonV),
    Simplification(SimplificationErrorV),
    Timeout(StepTimeoutMode),
}

impl View for HaltReason {
    type V = HaltReasonV;

    open spec fn view(&self) -> HaltReasonV {
        match self {
            HaltReason::Cancelled => HaltReasonV::Cancelled,
            HaltReason::Stuck => HaltReasonV::Stuck,
            HaltReason::Trivial => HaltReasonV::Trivial,
            HaltReason::Vacuous => HaltReasonV::Vacuous,
            HaltReason::Branch { branches, remainder } => HaltReasonV::Branch {
                branches: deep(branches@),
                remainder: remainder.deep_view(),
            },
            HaltReason::CutPointRule { rule, next_states } => HaltReasonV::CutPointRule {
                rule: rule@,
                next_states: deep(next_states@),
            },
            HaltReason::TerminalRule { rule } => HaltReasonV::TerminalRule { rule: rule@ },
            HaltReason::DepthBound => HaltReasonV::DepthBound,
            HaltReason::BreadthBound => HaltReasonV::BreadthBound,
            HaltReason::Indeterminate(first) => HaltReasonV::Indeterminate(first@),
            HaltReason::Simplification(first) => HaltReasonV::Simplification(first@),
            HaltReason::Timeout(first) => HaltReasonV::Timeout(*first),
        }
    }
}

impl DeepView for HaltReason {
    type V = HaltReasonV;

    open spec fn deep_view(&self) -> HaltReasonV {
        self@
    }
}

impl Value for HaltReason {
    fn duplicate(&self) -> (copy: Self) {
        match self {
            HaltReason::Cancelled => HaltReason::Cancelled,
            HaltReason::Stuck => HaltReason::Stuck,
            HaltReason::Trivial => HaltReason::Trivial,
            HaltReason::Vacuous => HaltReason::Vacuous,
            HaltReason::Branch { branches, remainder } => HaltReason::Branch {
                branches: branches.duplicate(),
                remainder: remainder.duplicate(),
            },
            HaltReason::CutPointRule { rule, next_states } => HaltReason::CutPointRule {
                rule: rule.clone(),
                next_states: next_states.duplicate(),
            },
            HaltReason::TerminalRule { rule } => HaltReason::TerminalRule { rule: rule.clone() },
            HaltReason::DepthBound => HaltReason::DepthBound,
            HaltReason::BreadthBound => HaltReason::BreadthBound,
            HaltReason::Indeterminate(first) => HaltReason::Indeterminate(first.duplicate()),
            HaltReason::Simplification(first) => HaltReason::Simplification(first.duplicate()),
            HaltReason::Timeout(first) => HaltReason::Timeout(*first),
        }
    }

    fn equals(&self, other: &Self) -> (same: bool) {
        match (self, other) {
            (HaltReason::Cancelled, HaltReason::Cancelled) => true,
            (HaltReason::Stuck, HaltReason::Stuck) => true,
            (HaltReason::Trivial, HaltReason::Trivial) => true,
            (HaltReason::Vacuous, HaltReason::Vacuous) => true,
            (
                HaltReason::Branch { branches, remainder },
                HaltReason::Branch { branches: other_branches, remainder: other_remainder },
            ) => branches.equals(other_branches) && remainder.equals(other_remainder),
            (
                HaltReason::CutPointRule { rule, next_states },
                HaltReason::CutPointRule { rule: other_rule, next_states: other_next_states },
            ) => *rule == *other_rule && next_states.equals(other_next_states),
            (
                HaltReason::TerminalRule { rule },
                HaltReason::TerminalRule { rule: other_rule },
            ) => *rule == *other_rule,
            (HaltReason::DepthBound, HaltReason::DepthBound) => true,
            (HaltReason::BreadthBound, HaltReason::BreadthBound) => true,
            (
                HaltReason::Indeterminate(first),
                HaltReason::Indeterminate(other_first),
            ) => first.equals(other_first),
            (
                HaltReason::Simplification(first),
                HaltReason::Simplification(other_first),
            ) => first.equals(other_first),
            (
                HaltReason::Timeout(first),
                HaltReason::Timeout(other_first),
            ) => *first == *other_first,
            _ => false,
        }
    }
}

/// A state at which the execution stopped.
#[derive(Debug, PartialEq, Eq)]
pub struct ExecutionLeaf {
    pub pattern: Pattern,
    pub depth: u64,
    pub trace: Vec<TraceEntry>,
    /// The transitions on the way, where they are observed.
    pub branch: Vec<TransitionId>,
    /// The observed events on the way.
    pub observations: Vec<ObservationEvent>,
    pub halt_reason: HaltReason,
}

/// The view of [`ExecutionLeaf`].
pub struct ExecutionLeafV {
    pub pattern: PatternV,
    pub depth: u64,
    pub trace: Seq<TraceEntryV>,
    pub branch: Seq<TransitionIdV>,
    pub observations: Seq<ObservationEventV>,
    pub halt_reason: HaltReasonV,
}

impl View for ExecutionLeaf {
    type V = ExecutionLeafV;

    open spec fn view(&self) -> ExecutionLeafV {
        ExecutionLeafV {
            pattern: self.pattern@,
            depth: self.depth,
            trace: deep(self.trace@),
            branch: deep(self.branch@),
            observations: deep(self.observations@),
            halt_reason: self.halt_reason@,
        }
    }
}

impl DeepView for ExecutionLeaf {
    type V = ExecutionLeafV;

    open spec fn deep_view(&self) -> ExecutionLeafV {
        self@
    }
}

impl Value for ExecutionLeaf {
    fn duplicate(&self) -> (copy: Self) {
        ExecutionLeaf {
            pattern: self.pattern.duplicate(),
            depth: self.depth,
            trace: self.trace.duplicate(),
            branch: self.branch.duplicate(),
            observations: self.observations.duplicate(),
            halt_reason: self.halt_reason.duplicate(),
        }
    }

    fn equals(&self, other: &Self) -> (same: bool) {
        self.pattern.equals(&other.pattern)
            && self.depth == other.depth
            && self.trace.equals(&other.trace)
            && self.branch.equals(&other.branch)
            && self.observations.equals(&other.observations)
            && self.halt_reason.equals(&other.halt_reason)
    }
}

/// What an execution gives.
#[derive(Debug, PartialEq, Eq)]
pub struct ExecutionResult {
    pub leaves: Vec<ExecutionLeaf>,
    pub effects: Vec<BuiltinEffect>,
    /// Transitions that were tried and belong to no branch.
    pub discarded: Vec<UncommittedObservation>,
}

/// The view of [`ExecutionResult`].
pub struct ExecutionResultV {
    pub leaves: Seq<ExecutionLeafV>,
    pub effects: Seq<BuiltinEffectV>,
    pub discarded: Seq<UncommittedObservationV>,
}

impl View for ExecutionResult {
    type V = ExecutionResultV;

    open spec fn view(&self) -> ExecutionResultV {
        ExecutionResultV {
            leaves: deep(self.leaves@),
            effects: deep(self.effects@),
            discarded: deep(self.discarded@),
        }
    }
}

impl DeepView for ExecutionResult {
    type V = ExecutionResultV;

    open spec fn deep_view(&self) -> ExecutionResultV {
        self@
    }
}

impl Value for ExecutionResult {
    fn duplicate(&self) -> (copy: Self) {
        ExecutionResult {
            leaves: self.leaves.duplicate(),
            effects: self.effects.duplicate(),
            discarded: self.discarded.duplicate(),
        }
    }

    fn equals(&self, other: &Self) -> (same: bool) {
        self.leaves.equals(&other.leaves)
            && self.effects.equals(&other.effects)
            && self.discarded.equals(&other.discarded)
    }
}

/// A state that the execution goes on from.
#[derive(Debug, PartialEq, Eq)]
pub struct ExecutionState {
    pub pattern: Pattern,
    pub depth: u64,
    pub trace: Vec<TraceEntry>,
    pub path: ObservationPath,
    pub is_initial_input: bool,
}

/// The view of [`ExecutionState`].
pub struct ExecutionStateV {
    pub pattern: PatternV,
    pub depth: u64,
    pub trace: Seq<TraceEntryV>,
    pub path: ObservationPathV,
    pub is_initial_input: bool,
}

impl View for ExecutionState {
    type V = ExecutionStateV;

    open spec fn view(&self) -> ExecutionStateV {
        ExecutionStateV {
            pattern: self.pattern@,
            depth: self.depth,
            trace: deep(self.trace@),
            path: self.path@,
            is_initial_input: self.is_initial_input,
        }
    }
}

impl DeepView for ExecutionState {
    type V = ExecutionStateV;

    open spec fn deep_view(&self) -> ExecutionStateV {
        self@
    }
}

impl Value for ExecutionState {
    fn duplicate(&self) -> (copy: Self) {
        ExecutionState {
            pattern: self.pattern.duplicate(),
            depth: self.depth,
            trace: self.trace.duplicate(),
            path: self.path.duplicate(),
            is_initial_input: self.is_initial_input,
        }
    }

    fn equals(&self, other: &Self) -> (same: bool) {
        self.pattern.equals(&other.pattern)
            && self.depth == other.depth
            && self.trace.equals(&other.trace)
            && self.path.equals(&other.path)
            && self.is_initial_input == other.is_initial_input
    }
}

/// How the simplification of the inputs came out.
#[derive(Clone, Copy, Debug, PartialEq, Eq, Structural)]
pub struct InitialSimplificationStatus {
    pub bottom: bool,
}

impl InitialSimplificationStatus {
    /// Whether there are inputs, and each was simplified to bottom.
    pub fn simplified_to_bottom(self) -> (result: bool)
        ensures
            result == self.bottom,
    {
        self.bottom
    }
}

/// The digest of a pattern.
pub open spec fn digest_of(pattern: PatternV) -> PatternDigestV {
    PatternDigestV { words: term_key(pattern.term) + <Vec<Predicate> as Keyed>::key(pattern.constraints) }
}

impl PatternDigest {
    /// The digest of a pattern.
    pub fn of(pattern: &Pattern) -> (digest: Self)
        ensures
            digest@ == digest_of(pattern@),
    {
        let mut words: Vec<u32> = Vec::new();
        pattern.term.push_key(&mut words);
        pattern.constraints.push_key(&mut words);
        assert(deep(words@) =~= words@);
        PatternDigest { words }
    }
}

impl ExecutionStateV {
    /// The leaf at this state.
    pub open spec fn leaf(self, halt_reason: HaltReasonV) -> ExecutionLeafV {
        ExecutionLeafV {
            pattern: self.pattern,
            depth: self.depth,
            trace: self.trace,
            branch: self.path.branch,
            observations: self.path.events,
            halt_reason,
        }
    }
}

impl ExecutionState {
    /// The leaf at this state.
    pub(crate) fn leaf(self, halt_reason: HaltReason) -> (leaf: ExecutionLeaf)
        ensures
            leaf@ == self@.leaf(halt_reason@),
    {
        ExecutionLeaf {
            pattern: self.pattern,
            depth: self.depth,
            trace: self.trace,
            branch: self.path.branch,
            observations: self.path.events,
            halt_reason,
        }
    }

    /// The leaf at this state, with another pattern.
    pub(crate) fn leaf_with_pattern(self, pattern: Pattern, halt_reason: HaltReason) -> (leaf:
        ExecutionLeaf)
        ensures
            leaf@ == (ExecutionStateV { pattern: pattern@, ..self@ }).leaf(halt_reason@),
    {
        ExecutionState {
            pattern,
            depth: self.depth,
            trace: self.trace,
            path: self.path,
            is_initial_input: self.is_initial_input,
        }.leaf(halt_reason)
    }
}

} // verus!
