//! The parts of an execution: what a state leads to, and what is recorded on the way.

use vstd::prelude::*;
use crate::definition::BackendDefinition;
use crate::execution_types::{
    digest_of, ExecutionLeaf, ExecutionLeafV, ExecutionOptions, ExecutionState, ExecutionStateV,
    HaltReason, HaltReasonV, ObservationEvent, ObservationEventV, ObservationOptions,
    ObservationPath, ObservationPathV, PatternDigest, TraceEntry, TraceEntryV, TraceKind,
    TransitionId, TransitionIdV,
};
use crate::kernel::Kernel;
use crate::model::{contains, deep, group_deep, Value};
use crate::pattern::{Pattern, PatternV};
use crate::rewrite_types::{AppliedRule, AppliedRuleV, RemainderBranch, RemainderBranchV};
use crate::simplify_parts::Environment;
use crate::simplify_types::{BudgetPolicy, SimplificationOptions};
use crate::kernel::{BuiltinEffect, BuiltinEffectV};
use crate::solver::SmtSolver;

verus! {

broadcast use group_deep;

/// What an execution runs under.
pub struct ExecutionConfig<'a, K: Kernel, S: SmtSolver> {
    pub definition: &'a BackendDefinition<K>,
    pub solver: &'a S,
    pub options: &'a ExecutionOptions,
    /// What is observed, where observation is enabled.
    pub observation: Option<&'a ObservationOptions>,
}

impl<'a, K: Kernel, S: SmtSolver> ExecutionConfig<'a, K, S> {
    /// The options under which states are simplified.
    pub open spec fn spec_simplification(self) -> SimplificationOptions {
        SimplificationOptions {
            max_iterations: self.options.max_simplification_iterations,
            budget: BudgetPolicy::KeepPartial,
        }
    }

    /// How far states are simplified.
    pub fn simplification(&self) -> (options: SimplificationOptions)
        ensures
            options == self.spec_simplification(),
    {
        SimplificationOptions::keep_partial(self.options.max_simplification_iterations)
    }

    /// What simplification works with.
    pub open spec fn environment(self) -> Environment<'a, K, S> {
        Environment { definition: self.definition, solver: self.solver }
    }

    /// Whether the rule with the given identity is observed.
    pub open spec fn spec_observes(self, id: Seq<char>) -> bool {
        self.observation is Some && self.observation->0.spec_observes(id)
    }

    /// Whether the rule `id` is observed.
    pub fn observes(&self, id: &String) -> (result: bool)
        ensures
            result == self.spec_observes(id@),
    {
        match self.observation {
            Some(options) => options.observes(id),
            None => false,
        }
    }
}

// ---------------------------------------------------------------------------------------------
// Traces
// ---------------------------------------------------------------------------------------------
/// `trace` with an entry for each rule from `from` on that simplified a state.
pub open spec fn with_simplifications(
    trace: Seq<TraceEntryV>,
    depth: u64,
    rules: Seq<Seq<char>>,
    from: int,
) -> Seq<TraceEntryV>
    decreases rules.len() - from,
{
    if from >= rules.len() {
        trace
    } else {
        with_simplifications(
            trace.push(
                TraceEntryV {
                    depth,
                    kind: TraceKind::Simplification,
                    label: None,
                    unique_id: rules[from],
                },
            ),
            depth,
            rules,
            from + 1,
        )
    }
}

/// Record the rules that simplified a state.
pub(crate) fn trace_simplifications(trace: &mut Vec<TraceEntry>, depth: u64, rules: &Vec<String>)
    ensures
        deep(final(trace)@) == with_simplifications(deep(old(trace)@), depth, deep(rules@), 0),
{
    let ghost start = deep(trace@);
    let mut i: usize = 0;
    while i < rules.len()
        invariant
            i <= rules.len(),
            with_simplifications(start, depth, deep(rules@), 0) == with_simplifications(
                deep(trace@),
                depth,
                deep(rules@),
                i as int,
            ),
        decreases rules.len() - i,
    {
        assert(deep(rules@)[i as int] == rules[i as int]@);
        trace.push(
            TraceEntry {
                depth,
                kind: TraceKind::Simplification,
                label: None,
                unique_id: rules[i].duplicate(),
            },
        );
        i += 1;
    }
}

/// The depth behind `depth`. It is only taken below a bound on the depth.
pub open spec fn deeper(depth: u64) -> u64 {
    if depth == u64::MAX {
        depth
    } else {
        (depth + 1) as u64
    }
}

/// The depth behind `depth`.
pub(crate) fn next_depth(depth: u64) -> (result: u64)
    ensures
        result == deeper(depth),
{
    if depth == u64::MAX {
        depth
    } else {
        depth + 1
    }
}

/// The names from `from` on, behind `text`, with a comma between two of them.
pub open spec fn joined(names: Seq<Seq<char>>, text: Seq<char>, from: int) -> Seq<char>
    decreases names.len() - from,
{
    if from >= names.len() {
        text
    } else if from <= 0 {
        joined(names, text + names[from], from + 1)
    } else {
        joined(names, text + ","@ + names[from], from + 1)
    }
}

/// The names with a comma between two of them.
pub(crate) fn join_names(names: &Vec<String>) -> (result: String)
    ensures
        result@ == joined(deep(names@), Seq::empty(), 0),
{
    let mut text = "".to_owned();
    proof {
        reveal_strlit("");
        assert(text@ =~= Seq::<char>::empty());
    }
    let mut i: usize = 0;
    while i < names.len()
        invariant
            i <= names.len(),
            joined(deep(names@), Seq::empty(), 0) == joined(deep(names@), text@, i as int),
        decreases names.len() - i,
    {
        assert(deep(names@)[i as int] == names[i as int]@);
        if i > 0 {
            text.append(",");
        }
        text.append(names[i].as_str());
        i += 1;
    }
    text
}

// ---------------------------------------------------------------------------------------------
// Observations
// ---------------------------------------------------------------------------------------------
/// The rules from `from` on that are observed, behind `found`.
pub open spec fn observed_rules<'a, K: Kernel, S: SmtSolver>(
    config: ExecutionConfig<'a, K, S>,
    rules: Seq<Seq<char>>,
    found: Seq<Seq<char>>,
    from: int,
) -> Seq<Seq<char>>
    decreases rules.len() - from,
{
    if from >= rules.len() {
        found
    } else {
        let next = if config.spec_observes(rules[from]) {
            found.push(rules[from])
        } else {
            found
        };
        observed_rules(config, rules, next, from + 1)
    }
}

fn find_observed_rules<'a, K: Kernel, S: SmtSolver>(
    config: &ExecutionConfig<'a, K, S>,
    rules: &Vec<String>,
) -> (result: Vec<String>)
    ensures
        deep(result@) == observed_rules(*config, deep(rules@), Seq::empty(), 0),
{
    let mut found: Vec<String> = Vec::new();
    let mut i: usize = 0;
    while i < rules.len()
        invariant
            i <= rules.len(),
            observed_rules(*config, deep(rules@), Seq::empty(), 0) == observed_rules(
                *config,
                deep(rules@),
                deep(found@),
                i as int,
            ),
        decreases rules.len() - i,
    {
        assert(deep(rules@)[i as int] == rules[i as int]@);
        if config.observes(&rules[i]) {
            found.push(rules[i].duplicate());
        }
        i += 1;
    }
    found
}

/// The way to a state, with a simplification of its pattern by rules of which one is observed.
pub open spec fn simplification_observed<'a, K: Kernel, S: SmtSolver>(
    config: ExecutionConfig<'a, K, S>,
    path: ObservationPathV,
    before: PatternV,
    after: PatternV,
    rules: Seq<Seq<char>>,
    effects: Seq<BuiltinEffectV>,
) -> ObservationPathV {
    let observed = observed_rules(config, rules, Seq::empty(), 0);
    if observed.len() == 0 {
        path
    } else {
        ObservationPathV {
            events: path.events.push(
                ObservationEventV::Simplified { before, after, rules: observed, effects },
            ),
            ..path
        }
    }
}

pub(crate) fn observe_simplification<'a, K: Kernel, S: SmtSolver>(
    config: &ExecutionConfig<'a, K, S>,
    path: &mut ObservationPath,
    before: &Pattern,
    after: &Pattern,
    rules: &Vec<String>,
    effects: &Vec<BuiltinEffect>,
)
    ensures
        final(path)@ == simplification_observed(
            *config,
            old(path)@,
            before@,
            after@,
            deep(rules@),
            deep(effects@),
        ),
{
    let observed = find_observed_rules(config, rules);
    if observed.len() > 0 {
        path.events.push(
            ObservationEvent::Simplified {
                before: before.duplicate(),
                after: after.duplicate(),
                rules: observed,
                effects: effects.duplicate(),
            },
        );
    }
}

/// The transition by a rule.
pub open spec fn transition_by(rule: Seq<char>, target: PatternV) -> TransitionIdV {
    TransitionIdV { rule, target: digest_of(target) }
}

/// The transition by a rule.
pub(crate) fn make_transition(rule: &String, target: &Pattern) -> (result: TransitionId)
    ensures
        result@ == transition_by(rule@, target@),
{
    TransitionId { rule: rule.duplicate(), target: PatternDigest::of(target) }
}

/// The way to a state behind a rule.
pub open spec fn application_observed<'a, K: Kernel, S: SmtSolver>(
    config: ExecutionConfig<'a, K, S>,
    path: ObservationPathV,
    applied: AppliedRuleV,
) -> ObservationPathV {
    let id = transition_by(applied.unique_id, applied.pattern);
    if config.observation is None {
        path
    } else {
        ObservationPathV {
            branch: path.branch.push(id),
            events: if config.spec_observes(applied.unique_id) {
                path.events.push(ObservationEventV::Applied { id, applied })
            } else {
                path.events
            },
        }
    }
}

pub(crate) fn observe_application<'a, K: Kernel, S: SmtSolver>(
    config: &ExecutionConfig<'a, K, S>,
    path: &mut ObservationPath,
    applied: &AppliedRule,
)
    ensures
        final(path)@ == application_observed(*config, old(path)@, applied@),
{
    if config.observation.is_some() {
        let id = make_transition(&applied.unique_id, &applied.pattern);
        if config.observes(&applied.unique_id) {
            path.events.push(
                ObservationEvent::Applied { id: id.duplicate(), applied: applied.duplicate() },
            );
        }
        path.branch.push(id);
    }
}

/// The way to what rules leave of a state.
pub open spec fn remainder_observed<'a, K: Kernel, S: SmtSolver>(
    config: ExecutionConfig<'a, K, S>,
    path: ObservationPathV,
    before: PatternV,
    remainder: RemainderBranchV,
) -> ObservationPathV {
    let id = transition_by(joined(remainder.rule_ids, Seq::empty(), 0), remainder.pattern);
    if config.observation is None {
        path
    } else {
        ObservationPathV {
            branch: path.branch.push(id),
            events: if observed_rules(config, remainder.rule_ids, Seq::empty(), 0).len() > 0 {
                path.events.push(ObservationEventV::Remained { id, before, remainder })
            } else {
                path.events
            },
        }
    }
}

fn observe_remainder<'a, K: Kernel, S: SmtSolver>(
    config: &ExecutionConfig<'a, K, S>,
    path: &mut ObservationPath,
    before: &Pattern,
    remainder: &RemainderBranch,
)
    ensures
        final(path)@ == remainder_observed(*config, old(path)@, before@, remainder@),
{
    if config.observation.is_some() {
        let id = make_transition(&join_names(&remainder.rule_ids), &remainder.pattern);
        if find_observed_rules(config, &remainder.rule_ids).len() > 0 {
            path.events.push(
                ObservationEvent::Remained {
                    id: id.duplicate(),
                    before: before.duplicate(),
                    remainder: remainder.duplicate(),
                },
            );
        }
        path.branch.push(id);
    }
}

// ---------------------------------------------------------------------------------------------
// Successors
// ---------------------------------------------------------------------------------------------
/// The state behind a rule.
pub open spec fn state_after<'a, K: Kernel, S: SmtSolver>(
    config: ExecutionConfig<'a, K, S>,
    state: ExecutionStateV,
    applied: AppliedRuleV,
) -> ExecutionStateV {
    ExecutionStateV {
        pattern: applied.pattern,
        depth: deeper(state.depth),
        trace: state.trace.push(
            TraceEntryV {
                depth: deeper(state.depth),
                kind: TraceKind::Rewrite,
                label: applied.label,
                unique_id: applied.unique_id,
            },
        ),
        path: application_observed(config, state.path, applied),
        is_initial_input: false,
    }
}

/// The state behind a rule.
pub(crate) fn next_state<'a, K: Kernel, S: SmtSolver>(
    config: &ExecutionConfig<'a, K, S>,
    state: &ExecutionState,
    applied: &AppliedRule,
) -> (next: ExecutionState)
    ensures
        next@ == state_after(*config, state@, applied@),
{
    let depth = next_depth(state.depth);
    let mut trace = state.trace.duplicate();
    trace.push(
        TraceEntry {
            depth,
            kind: TraceKind::Rewrite,
            label: applied.label.duplicate(),
            unique_id: applied.unique_id.duplicate(),
        },
    );
    let mut path = state.path.duplicate();
    observe_application(config, &mut path, applied);
    ExecutionState {
        pattern: applied.pattern.duplicate(),
        depth,
        trace,
        path,
        is_initial_input: false,
    }
}

/// The state that rules leave.
pub open spec fn state_left<'a, K: Kernel, S: SmtSolver>(
    config: ExecutionConfig<'a, K, S>,
    state: ExecutionStateV,
    remainder: RemainderBranchV,
) -> ExecutionStateV {
    ExecutionStateV {
        pattern: remainder.pattern,
        depth: state.depth,
        trace: state.trace.push(
            TraceEntryV {
                depth: state.depth,
                kind: TraceKind::Remainder,
                label: None,
                unique_id: joined(remainder.rule_ids, Seq::empty(), 0),
            },
        ),
        path: remainder_observed(config, state.path, state.pattern, remainder),
        is_initial_input: false,
    }
}

/// The state that rules leave.
pub(crate) fn remaining_state<'a, K: Kernel, S: SmtSolver>(
    config: &ExecutionConfig<'a, K, S>,
    state: &ExecutionState,
    remainder: &RemainderBranch,
) -> (next: ExecutionState)
    ensures
        next@ == state_left(*config, state@, remainder@),
{
    let mut trace = state.trace.duplicate();
    trace.push(
        TraceEntry {
            depth: state.depth,
            kind: TraceKind::Remainder,
            label: None,
            unique_id: join_names(&remainder.rule_ids),
        },
    );
    let mut path = state.path.duplicate();
    observe_remainder(config, &mut path, &state.pattern, remainder);
    ExecutionState {
        pattern: remainder.pattern.duplicate(),
        depth: state.depth,
        trace,
        path,
        is_initial_input: false,
    }
}

/// The label or the identity by which a rule is selected, the label first.
pub open spec fn stop_rule(applied: AppliedRuleV, chosen: Seq<Seq<char>>) -> Option<Seq<char>> {
    if applied.label is Some && chosen.contains(applied.label->0) {
        applied.label
    } else if chosen.contains(applied.unique_id) {
        Some(applied.unique_id)
    } else {
        None
    }
}

/// The label or the identity by which a rule is selected.
pub(crate) fn selected_stop_rule(applied: &AppliedRule, chosen: &Vec<String>) -> (result: Option<
    String,
>)
    ensures
        result.deep_view() == stop_rule(applied@, deep(chosen@)),
{
    if let Some(label) = &applied.label {
        if contains(chosen, label) {
            return Some(label.duplicate());
        }
    }
    if contains(chosen, &applied.unique_id) {
        return Some(applied.unique_id.duplicate());
    }
    None
}

/// The states from `from` on as leaves at the breadth bound, behind `found`.
pub open spec fn at_breadth_bound(
    states: Seq<ExecutionStateV>,
    found: Seq<ExecutionLeafV>,
    from: int,
) -> Seq<ExecutionLeafV>
    decreases states.len() - from,
{
    if from >= states.len() {
        found
    } else {
        at_breadth_bound(states, found.push(states[from].leaf(HaltReasonV::BreadthBound)), from + 1)
    }
}

/// The states as leaves at the breadth bound.
pub(crate) fn stop_at_breadth_bound(states: &Vec<ExecutionState>) -> (result: Vec<ExecutionLeaf>)
    ensures
        deep(result@) == at_breadth_bound(deep(states@), Seq::empty(), 0),
{
    let mut result: Vec<ExecutionLeaf> = Vec::new();
    let mut i: usize = 0;
    while i < states.len()
        invariant
            i <= states.len(),
            at_breadth_bound(deep(states@), Seq::empty(), 0) == at_breadth_bound(
                deep(states@),
                deep(result@),
                i as int,
            ),
        decreases states.len() - i,
    {
        assert(deep(states@)[i as int] == states[i as int]@);
        result.push(states[i].duplicate().leaf(HaltReason::BreadthBound));
        i += 1;
    }
    result
}

// ---------------------------------------------------------------------------------------------
// Rewrite steps of a trace
// ---------------------------------------------------------------------------------------------
/// The number of rewrite steps among the first `count` entries of a trace.
pub open spec fn rewrite_steps(trace: Seq<TraceEntryV>, count: int) -> nat
    decreases count,
{
    if count <= 0 {
        0
    } else {
        rewrite_steps(trace, count - 1) + if trace[count - 1].kind is Rewrite {
            1nat
        } else {
            0nat
        }
    }
}

/// One more entry of a trace leaves the entries before it.
pub proof fn lemma_steps_push(trace: Seq<TraceEntryV>, entry: TraceEntryV, count: int)
    requires
        0 <= count <= trace.len(),
    ensures
        rewrite_steps(trace.push(entry), count) == rewrite_steps(trace, count),
    decreases count,
{
    if count > 0 {
        lemma_steps_push(trace, entry, count - 1);
        assert(trace.push(entry)[count - 1] == trace[count - 1]);
    }
}

/// Simplifications are no rewrite steps.
pub proof fn lemma_steps_simplified(
    trace: Seq<TraceEntryV>,
    depth: u64,
    rules: Seq<Seq<char>>,
    from: int,
)
    ensures
        ({
            let longer = with_simplifications(trace, depth, rules, from);
            rewrite_steps(longer, longer.len() as int) == rewrite_steps(trace, trace.len() as int)
        }),
    decreases rules.len() - from,
{
    if from < rules.len() {
        let entry = TraceEntryV {
            depth,
            kind: TraceKind::Simplification,
            label: None,
            unique_id: rules[from],
        };
        lemma_steps_push(trace, entry, trace.len() as int);
        lemma_steps_simplified(trace.push(entry), depth, rules, from + 1);
    }
}

} // verus!
