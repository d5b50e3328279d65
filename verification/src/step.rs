//! One rewrite step: all rules of the first priority that applies, or the rules one after another.

use vstd::prelude::*;
use crate::apply::{apply_rule, rule_applied, REFINEMENTS};
use crate::apply_parts::{RuleScope, RuleScopeV};
use crate::definition::BackendDefinition;
use crate::domain::{violates_domain, violates_finite_constructor_domain};
use crate::equations::{applicable_groups, groups_for};
use crate::index::{extend_unique, push_unique, unique_extension};
use crate::kernel::{result_view, Kernel};
use crate::model::{deep, group_deep, Value};
use crate::normalize::add_unique;
use crate::pattern::{Pattern, PatternV};
use crate::predicate::{Predicate, PredicateV};
use crate::rewrite_types::{
    AppliedRule, AppliedRuleV, IndeterminateReason, IndeterminateReasonV, RemainderBranch,
    RemainderBranchV, RewriteResult, RewriteResultV, RuleApplication, RuleApplicationV, RuleAttempt,
    RuleAttemptV, TrivialApplication, TrivialApplicationV,
};
use crate::rule::{index_of, term_index, GroupsV, RewriteRule, RewriteRuleV};
use crate::simplification::{conjunction_simplified, simplify_predicates_with_solver};
use crate::simplify_parts::Environment;
use crate::simplify_types::{
    BudgetPolicy, SimplificationOptions, DEFAULT_MAX_SIMPLIFICATION_ITERATIONS,
};
use crate::solver::{NoSolver, Satisfiability, SatisfiabilityV, SmtError, SmtErrorV, SmtSolver};
use crate::substitution::Substitution;
use crate::truth::{conjunction_truth, predicates_truth, Truth};

verus! {

broadcast use group_deep;

/// Whether a step applies all rules of a priority, or one rule after another to what the rules
/// before leave.
#[derive(Clone, Copy, Debug, PartialEq, Eq, Structural)]
pub enum ExecutionMode {
    All,
    Any,
}

/// What is left of a pattern: whether it has an instance.
pub type Left = Result<SatisfiabilityV, SmtErrorV>;

/// Whether what is left of a pattern is decided.
pub open spec fn left_is_decided(left: Left) -> bool {
    match left {
        Ok(SatisfiabilityV::Sat) | Ok(SatisfiabilityV::Unsat) => true,
        _ => false,
    }
}

fn is_left_decided(left: &Result<Satisfiability, SmtError>) -> (result: bool)
    ensures
        result == left_is_decided(result_view(*left)),
{
    match left {
        Ok(Satisfiability::Sat) | Ok(Satisfiability::Unsat) => true,
        _ => false,
    }
}

/// Whether the constraints can hold: not where they leave a sort without a constructor, and as the
/// solver says where they do not.
pub open spec fn left_of<'a, K: Kernel, S: SmtSolver>(
    environment: Environment<'a, K, S>,
    constraints: Seq<PredicateV>,
) -> Left {
    if violates_domain(*environment.definition, constraints) {
        Ok(SatisfiabilityV::Unsat)
    } else {
        environment.solver.satisfiability(constraints, Seq::empty())
    }
}

fn find_left<'a, K: Kernel, S: SmtSolver>(
    environment: &Environment<'a, K, S>,
    constraints: &Vec<Predicate>,
) -> (result: Result<Satisfiability, SmtError>)
    ensures
        result_view(result) == left_of(*environment, deep(constraints@)),
{
    if violates_finite_constructor_domain(environment.definition, constraints) {
        Ok(Satisfiability::Unsat)
    } else {
        environment.solver.is_sat(constraints, &Substitution::new())
    }
}

/// The outcome of a step, once what is left of the pattern is known.
pub open spec fn step_outcome(
    pattern: PatternV,
    applied: Seq<AppliedRuleV>,
    trivial: Seq<TrivialApplicationV>,
    remainder: Option<RemainderBranchV>,
) -> RewriteResultV {
    if remainder is None && applied.len() == 0 && trivial.len() > 0 {
        RewriteResultV::Trivial(pattern)
    } else if remainder is None && applied.len() == 1 && trivial.len() == 0 {
        RewriteResultV::Finished(applied[0])
    } else {
        RewriteResultV::Branch { original: pattern, branches: applied, remainder, trivial }
    }
}

fn make_step_outcome(
    pattern: &Pattern,
    applied: Vec<AppliedRule>,
    trivial: Vec<TrivialApplication>,
    remainder: Option<RemainderBranch>,
) -> (result: RewriteResult)
    ensures
        result@ == step_outcome(
            pattern@,
            deep(applied@),
            deep(trivial@),
            remainder.deep_view(),
        ),
{
    if remainder.is_none() && applied.len() == 0 && trivial.len() > 0 {
        RewriteResult::Trivial(pattern.duplicate())
    } else if remainder.is_none() && applied.len() == 1 && trivial.len() == 0 {
        assert(deep(applied@)[0] == applied[0]@);
        RewriteResult::Finished(applied[0].duplicate())
    } else {
        RewriteResult::Branch { original: pattern.duplicate(), branches: applied, remainder, trivial }
    }
}

/// The identities of the rules that were applied from `from` on, behind `found`.
pub open spec fn applied_ids(
    applied: Seq<AppliedRuleV>,
    found: Seq<Seq<char>>,
    from: int,
) -> Seq<Seq<char>>
    decreases applied.len() - from,
{
    if from >= applied.len() {
        found
    } else {
        applied_ids(applied, found.push(applied[from].unique_id), from + 1)
    }
}

/// The identities of the rules without a result from `from` on, behind `found`.
pub open spec fn trivial_ids(
    trivial: Seq<TrivialApplicationV>,
    found: Seq<Seq<char>>,
    from: int,
) -> Seq<Seq<char>>
    decreases trivial.len() - from,
{
    if from >= trivial.len() {
        found
    } else {
        trivial_ids(trivial, found.push(trivial[from].rule_id), from + 1)
    }
}

/// The identities of the rules that unified.
pub open spec fn unified_ids(
    applied: Seq<AppliedRuleV>,
    trivial: Seq<TrivialApplicationV>,
) -> Seq<Seq<char>> {
    trivial_ids(trivial, applied_ids(applied, Seq::empty(), 0), 0)
}

fn collect_unified_ids(applied: &Vec<AppliedRule>, trivial: &Vec<TrivialApplication>) -> (result:
    Vec<String>)
    ensures
        deep(result@) == unified_ids(deep(applied@), deep(trivial@)),
{
    let mut found: Vec<String> = Vec::new();
    let mut i: usize = 0;
    while i < applied.len()
        invariant
            i <= applied.len(),
            applied_ids(deep(applied@), Seq::empty(), 0) == applied_ids(
                deep(applied@),
                deep(found@),
                i as int,
            ),
        decreases applied.len() - i,
    {
        assert(deep(applied@)[i as int] == applied[i as int]@);
        found.push(applied[i].unique_id.duplicate());
        i += 1;
    }
    let ghost start = deep(found@);
    let mut j: usize = 0;
    while j < trivial.len()
        invariant
            j <= trivial.len(),
            trivial_ids(deep(trivial@), start, 0) == trivial_ids(
                deep(trivial@),
                deep(found@),
                j as int,
            ),
        decreases trivial.len() - j,
    {
        assert(deep(trivial@)[j as int] == trivial[j as int]@);
        found.push(trivial[j].rule_id.duplicate());
        j += 1;
    }
    found
}

// ---------------------------------------------------------------------------------------------
// All rules of a priority
// ---------------------------------------------------------------------------------------------
/// The applications without the cases in which the rules do not apply.
pub open spec fn applied_rules(
    applied: Seq<RuleApplicationV>,
    found: Seq<AppliedRuleV>,
    from: int,
) -> Seq<AppliedRuleV>
    decreases applied.len() - from,
{
    if from >= applied.len() {
        found
    } else {
        applied_rules(applied, found.push(applied[from].applied), from + 1)
    }
}

/// The cases in which the rules that were applied from `from` on do not apply, behind `found`.
pub open spec fn applied_remainders(
    applied: Seq<RuleApplicationV>,
    found: Seq<PredicateV>,
    from: int,
) -> Seq<PredicateV>
    decreases applied.len() - from,
{
    if from >= applied.len() {
        found
    } else {
        applied_remainders(applied, found.push(applied[from].remainder), from + 1)
    }
}

/// The same for the rules without a result.
pub open spec fn trivial_remainders(
    trivial: Seq<TrivialApplicationV>,
    found: Seq<PredicateV>,
    from: int,
) -> Seq<PredicateV>
    decreases trivial.len() - from,
{
    if from >= trivial.len() {
        found
    } else {
        trivial_remainders(trivial, found.push(trivial[from].remainder), from + 1)
    }
}

fn collect_applied_rules(applied: &Vec<RuleApplication>) -> (result: Vec<AppliedRule>)
    ensures
        deep(result@) == applied_rules(deep(applied@), Seq::empty(), 0),
{
    let mut found: Vec<AppliedRule> = Vec::new();
    let mut i: usize = 0;
    while i < applied.len()
        invariant
            i <= applied.len(),
            applied_rules(deep(applied@), Seq::empty(), 0) == applied_rules(
                deep(applied@),
                deep(found@),
                i as int,
            ),
        decreases applied.len() - i,
    {
        assert(deep(applied@)[i as int] == applied[i as int]@);
        found.push(applied[i].applied.duplicate());
        i += 1;
    }
    found
}

fn collect_remainders(applied: &Vec<RuleApplication>, trivial: &Vec<TrivialApplication>) -> (result:
    Vec<Predicate>)
    ensures
        deep(result@) == trivial_remainders(
            deep(trivial@),
            applied_remainders(deep(applied@), Seq::empty(), 0),
            0,
        ),
{
    let mut found: Vec<Predicate> = Vec::new();
    let mut i: usize = 0;
    while i < applied.len()
        invariant
            i <= applied.len(),
            applied_remainders(deep(applied@), Seq::empty(), 0) == applied_remainders(
                deep(applied@),
                deep(found@),
                i as int,
            ),
        decreases applied.len() - i,
    {
        assert(deep(applied@)[i as int] == applied[i as int]@);
        found.push(applied[i].remainder.duplicate());
        i += 1;
    }
    let ghost start = deep(found@);
    let mut j: usize = 0;
    while j < trivial.len()
        invariant
            j <= trivial.len(),
            trivial_remainders(deep(trivial@), start, 0) == trivial_remainders(
                deep(trivial@),
                deep(found@),
                j as int,
            ),
        decreases trivial.len() - j,
    {
        assert(deep(trivial@)[j as int] == trivial[j as int]@);
        found.push(trivial[j].remainder.duplicate());
        j += 1;
    }
    found
}

/// What the rules of one priority give: the applications, and the rules without a result.
pub type GroupV = (Seq<RuleApplicationV>, Seq<TrivialApplicationV>);

/// What the rules from `from` on give, behind what was found.
pub open spec fn group_applied<'a, K: Kernel, S: SmtSolver>(
    environment: Environment<'a, K, S>,
    options: SimplificationOptions,
    pattern: PatternV,
    assume_defined: bool,
    rules: Seq<RewriteRuleV>,
    found: GroupV,
    counter: u64,
    from: int,
) -> (Result<GroupV, IndeterminateReasonV>, u64)
    decreases rules.len() - from,
{
    if from >= rules.len() {
        (Ok(found), counter)
    } else {
        match rule_applied(
            RuleScopeV {
                definition: environment.definition,
                solver: environment.solver,
                rule: rules[from],
                pattern,
                options,
                assume_defined,
            },
            REFINEMENTS as nat,
            None,
            counter,
        ) {
            (RuleAttemptV::NotApplicable, after) => group_applied(
                environment,
                options,
                pattern,
                assume_defined,
                rules,
                found,
                after,
                from + 1,
            ),
            (RuleAttemptV::Unified { applied, trivial }, after) => group_applied(
                environment,
                options,
                pattern,
                assume_defined,
                rules,
                (found.0 + applied, found.1 + trivial),
                after,
                from + 1,
            ),
            (RuleAttemptV::Indeterminate(reason), after) => (Err(reason), after),
        }
    }
}

#[verifier::spinoff_prover]
fn apply_group<'a, K: Kernel, S: SmtSolver>(
    environment: &Environment<'a, K, S>,
    options: SimplificationOptions,
    pattern: &Pattern,
    assume_defined: bool,
    rules: &Vec<&RewriteRule>,
    counter: &mut u64,
) -> (result: Result<(Vec<RuleApplication>, Vec<TrivialApplication>), IndeterminateReason>)
    ensures
        (result_view(result), *final(counter)) == group_applied(
            *environment,
            options,
            pattern@,
            assume_defined,
            deep(rules@),
            (Seq::empty(), Seq::empty()),
            *old(counter),
            0,
        ),
{
    let mut applied: Vec<RuleApplication> = Vec::new();
    let mut trivial: Vec<TrivialApplication> = Vec::new();
    let mut i: usize = 0;
    while i < rules.len()
        invariant
            i <= rules.len(),
            group_applied(
                *environment,
                options,
                pattern@,
                assume_defined,
                deep(rules@),
                (Seq::empty(), Seq::empty()),
                *old(counter),
                0,
            ) == group_applied(
                *environment,
                options,
                pattern@,
                assume_defined,
                deep(rules@),
                (deep(applied@), deep(trivial@)),
                *counter,
                i as int,
            ),
        decreases rules.len() - i,
    {
        assert(deep(rules@)[i as int] == rules[i as int]@);
        let scope = RuleScope {
            definition: environment.definition,
            solver: environment.solver,
            rule: rules[i],
            pattern,
            options,
            assume_defined,
        };
        match apply_rule(&scope, counter) {
            RuleAttempt::NotApplicable => {},
            RuleAttempt::Unified { applied: more, trivial: more_trivial } => {
                let mut more = more;
                let mut more_trivial = more_trivial;
                applied.append(&mut more);
                trivial.append(&mut more_trivial);
            },
            RuleAttempt::Indeterminate(reason) => {
                return Err(reason);
            },
        }
        i += 1;
    }
    Ok((applied, trivial))
}

/// The outcome of a step in which rules of one priority unified: what is left of the pattern is
/// where none of them applies.
pub open spec fn group_outcome<'a, K: Kernel, S: SmtSolver>(
    environment: Environment<'a, K, S>,
    options: SimplificationOptions,
    pattern: PatternV,
    group: GroupV,
) -> RewriteResultV {
    let applied = applied_rules(group.0, Seq::empty(), 0);
    let rule_ids = unified_ids(applied, group.1);
    match conjunction_simplified(
        environment.definition,
        environment.solver,
        trivial_remainders(group.1, applied_remainders(group.0, Seq::empty(), 0), 0),
        pattern.constraints,
        options,
    ) {
        Err(error) => RewriteResultV::Indeterminate {
            pattern,
            reason: IndeterminateReasonV::Simplification { rule_id: None, error },
        },
        Ok(remainder) => {
            let left = if conjunction_truth(remainder) is False {
                Ok(SatisfiabilityV::Unsat)
            } else {
                left_of(environment, pattern.constraints + remainder)
            };
            if !left_is_decided(left) {
                RewriteResultV::Indeterminate {
                    pattern,
                    reason: IndeterminateReasonV::Remainder {
                        rule_ids,
                        predicates: remainder,
                        satisfiability: left,
                    },
                }
            } else {
                step_outcome(
                    pattern,
                    applied,
                    group.1,
                    if left->Ok_0 is Sat {
                        Some(
                            RemainderBranchV {
                                pattern: PatternV {
                                    constraints: unique_extension(pattern.constraints, remainder),
                                    ..pattern
                                },
                                rule_ids,
                            },
                        )
                    } else {
                        None
                    },
                )
            }
        },
    }
}

#[verifier::spinoff_prover]
fn make_group_outcome<'a, K: Kernel, S: SmtSolver>(
    environment: &Environment<'a, K, S>,
    options: SimplificationOptions,
    pattern: &Pattern,
    applications: &Vec<RuleApplication>,
    trivial: Vec<TrivialApplication>,
) -> (result: RewriteResult)
    ensures
        result@ == group_outcome(
            *environment,
            options,
            pattern@,
            (deep(applications@), deep(trivial@)),
        ),
{
    let applied = collect_applied_rules(applications);
    let rule_ids = collect_unified_ids(&applied, &trivial);
    let remainder = match simplify_predicates_with_solver(
        environment.definition,
        &collect_remainders(applications, &trivial),
        &pattern.constraints,
        options,
        environment.solver,
    ) {
        Ok(remainder) => remainder,
        Err(error) => {
            return RewriteResult::Indeterminate {
                pattern: pattern.duplicate(),
                reason: IndeterminateReason::Simplification { rule_id: None, error },
            };
        },
    };
    let left = if matches!(predicates_truth(&remainder), Truth::False) {
        Ok(Satisfiability::Unsat)
    } else {
        let mut constraints = pattern.constraints.duplicate();
        let mut more = remainder.duplicate();
        constraints.append(&mut more);
        find_left(environment, &constraints)
    };
    if !is_left_decided(&left) {
        return RewriteResult::Indeterminate {
            pattern: pattern.duplicate(),
            reason: IndeterminateReason::Remainder {
                rule_ids,
                predicates: remainder,
                satisfiability: left,
            },
        };
    }
    let branch = if let Ok(Satisfiability::Sat) = left {
        let mut constraints = pattern.constraints.duplicate();
        extend_unique(&mut constraints, remainder);
        Some(
            RemainderBranch {
                pattern: Pattern { term: pattern.term.duplicate(), constraints },
                rule_ids,
            },
        )
    } else {
        None
    };
    make_step_outcome(pattern, applied, trivial, branch)
}

/// The outcome of a step with the rules of the priorities from `from` on: those of the first
/// priority of which a rule unifies.
pub open spec fn groups_stepped<'a, K: Kernel, S: SmtSolver>(
    environment: Environment<'a, K, S>,
    options: SimplificationOptions,
    pattern: PatternV,
    assume_defined: bool,
    groups: GroupsV,
    counter: u64,
    from: int,
) -> (RewriteResultV, u64)
    decreases groups.len() - from,
{
    if from >= groups.len() {
        (RewriteResultV::Stuck(pattern), counter)
    } else {
        match group_applied(
            environment,
            options,
            pattern,
            assume_defined,
            groups[from].1,
            (Seq::empty(), Seq::empty()),
            counter,
            0,
        ) {
            (Err(reason), after) => (RewriteResultV::Indeterminate { pattern, reason }, after),
            (Ok(group), after) => if group.0.len() == 0 && group.1.len() == 0 {
                groups_stepped(
                    environment,
                    options,
                    pattern,
                    assume_defined,
                    groups,
                    after,
                    from + 1,
                )
            } else {
                (group_outcome(environment, options, pattern, group), after)
            },
        }
    }
}

#[verifier::spinoff_prover]
fn rewrite_step_all<'a, K: Kernel, S: SmtSolver>(
    environment: &Environment<'a, K, S>,
    pattern: &Pattern,
    counter: &mut u64,
    options: SimplificationOptions,
    assume_defined: bool,
) -> (result: RewriteResult)
    ensures
        (result@, *final(counter)) == groups_stepped(
            *environment,
            options,
            pattern@,
            assume_defined,
            groups_for(environment.definition.rewrite_theory@, index_of(pattern@.term)),
            *old(counter),
            0,
        ),
{
    let groups = applicable_groups(
        &environment.definition.rewrite_theory,
        &term_index(&pattern.term),
    );
    let ghost goal = groups_stepped(
        *environment,
        options,
        pattern@,
        assume_defined,
        groups_for(environment.definition.rewrite_theory@, index_of(pattern@.term)),
        *counter,
        0,
    );
    let mut i: usize = 0;
    while i < groups.len()
        invariant
            i <= groups.len(),
            goal == groups_stepped(
                *environment,
                options,
                pattern@,
                assume_defined,
                groups_for(environment.definition.rewrite_theory@, index_of(pattern@.term)),
                *old(counter),
                0,
            ),
            goal == groups_stepped(
                *environment,
                options,
                pattern@,
                assume_defined,
                deep(groups@),
                *counter,
                i as int,
            ),
        decreases groups.len() - i,
    {
        assert(deep(groups@)[i as int].1 == deep(groups[i as int].1@));
        match apply_group(environment, options, pattern, assume_defined, &groups[i].1, counter) {
            Err(reason) => {
                return RewriteResult::Indeterminate { pattern: pattern.duplicate(), reason };
            },
            Ok((applied, trivial)) => {
                if applied.len() > 0 || trivial.len() > 0 {
                    return make_group_outcome(environment, options, pattern, &applied, trivial);
                }
            },
        }
        i += 1;
    }
    RewriteResult::Stuck(pattern.duplicate())
}

// ---------------------------------------------------------------------------------------------
// One rule after another
// ---------------------------------------------------------------------------------------------
/// How far a step has come that applies one rule after another.
pub struct Sequential {
    /// What the rules so far leave of the pattern.
    pub remaining: Pattern,
    /// The cases in which the rules so far do not apply.
    pub conditions: Vec<Predicate>,
    pub applied: Vec<AppliedRule>,
    pub trivial: Vec<TrivialApplication>,
}

/// The view of [`Sequential`].
pub struct SequentialV {
    pub remaining: PatternV,
    pub conditions: Seq<PredicateV>,
    pub applied: Seq<AppliedRuleV>,
    pub trivial: Seq<TrivialApplicationV>,
}

impl View for Sequential {
    type V = SequentialV;

    open spec fn view(&self) -> SequentialV {
        SequentialV {
            remaining: self.remaining@,
            conditions: deep(self.conditions@),
            applied: deep(self.applied@),
            trivial: deep(self.trivial@),
        }
    }
}

/// `state` outside of the case `remainder` negates.
pub open spec fn narrowed_by(state: SequentialV, remainder: PredicateV) -> SequentialV {
    SequentialV {
        remaining: PatternV {
            constraints: push_unique(state.remaining.constraints, remainder),
            ..state.remaining
        },
        conditions: push_unique(state.conditions, remainder),
        ..state
    }
}

/// `state` with the applications from `from` on.
pub open spec fn with_applications(
    state: SequentialV,
    applied: Seq<RuleApplicationV>,
    from: int,
) -> SequentialV
    decreases applied.len() - from,
{
    if from >= applied.len() {
        state
    } else {
        let next = narrowed_by(state, applied[from].remainder);
        with_applications(
            SequentialV { applied: next.applied.push(applied[from].applied), ..next },
            applied,
            from + 1,
        )
    }
}

/// `state` with the rules without a result from `from` on.
pub open spec fn with_trivial(
    state: SequentialV,
    trivial: Seq<TrivialApplicationV>,
    from: int,
) -> SequentialV
    decreases trivial.len() - from,
{
    if from >= trivial.len() {
        state
    } else {
        let next = narrowed_by(state, trivial[from].remainder);
        with_trivial(
            SequentialV { trivial: next.trivial.push(trivial[from]), ..next },
            trivial,
            from + 1,
        )
    }
}

fn narrow_by(state: Sequential, remainder: &Predicate) -> (result: Sequential)
    ensures
        result@ == narrowed_by(state@, remainder@),
{
    let Sequential { remaining, mut conditions, applied, trivial } = state;
    let Pattern { term, mut constraints } = remaining;
    add_unique(&mut conditions, remainder.duplicate());
    add_unique(&mut constraints, remainder.duplicate());
    Sequential { remaining: Pattern { term, constraints }, conditions, applied, trivial }
}

fn add_applications(state: Sequential, applied: &Vec<RuleApplication>) -> (result: Sequential)
    ensures
        result@ == with_applications(state@, deep(applied@), 0),
{
    let mut current = state;
    let mut i: usize = 0;
    while i < applied.len()
        invariant
            i <= applied.len(),
            with_applications(state@, deep(applied@), 0) == with_applications(
                current@,
                deep(applied@),
                i as int,
            ),
        decreases applied.len() - i,
    {
        assert(deep(applied@)[i as int] == applied[i as int]@);
        let mut next = narrow_by(current, &applied[i].remainder);
        next.applied.push(applied[i].applied.duplicate());
        current = next;
        i += 1;
    }
    current
}

fn add_trivial(state: Sequential, trivial: &Vec<TrivialApplication>) -> (result: Sequential)
    ensures
        result@ == with_trivial(state@, deep(trivial@), 0),
{
    let mut current = state;
    let mut i: usize = 0;
    while i < trivial.len()
        invariant
            i <= trivial.len(),
            with_trivial(state@, deep(trivial@), 0) == with_trivial(
                current@,
                deep(trivial@),
                i as int,
            ),
        decreases trivial.len() - i,
    {
        assert(deep(trivial@)[i as int] == trivial[i as int]@);
        let mut next = narrow_by(current, &trivial[i].remainder);
        next.trivial.push(trivial[i].duplicate());
        current = next;
        i += 1;
    }
    current
}

/// The state after a rule that unified: what is left of the pattern is simplified.
pub open spec fn rule_taken<'a, K: Kernel, S: SmtSolver>(
    environment: Environment<'a, K, S>,
    options: SimplificationOptions,
    constraints: Seq<PredicateV>,
    rule: RewriteRuleV,
    state: SequentialV,
    group: GroupV,
) -> Result<SequentialV, RewriteResultV> {
    let state = with_trivial(with_applications(state, group.0, 0), group.1, 0);
    match conjunction_simplified(
        environment.definition,
        environment.solver,
        state.remaining.constraints,
        constraints,
        options,
    ) {
        Ok(simple) => Ok(
            SequentialV {
                remaining: PatternV {
                    constraints: unique_extension(constraints, simple),
                    ..state.remaining
                },
                ..state
            },
        ),
        Err(error) => Err(
            RewriteResultV::Indeterminate {
                pattern: state.remaining,
                reason: IndeterminateReasonV::Simplification {
                    rule_id: Some(rule.attributes.unique_id),
                    error,
                },
            },
        ),
    }
}

#[verifier::spinoff_prover]
fn take_rule<'a, K: Kernel, S: SmtSolver>(
    environment: &Environment<'a, K, S>,
    options: SimplificationOptions,
    constraints: &Vec<Predicate>,
    rule: &RewriteRule,
    state: Sequential,
    applied: &Vec<RuleApplication>,
    trivial: &Vec<TrivialApplication>,
) -> (result: Result<Sequential, RewriteResult>)
    ensures
        match rule_taken(
            *environment,
            options,
            deep(constraints@),
            rule@,
            state@,
            (deep(applied@), deep(trivial@)),
        ) {
            Ok(next) => result is Ok && result->Ok_0@ == next,
            Err(outcome) => result is Err && result->Err_0@ == outcome,
        },
{
    let Sequential { remaining, conditions, applied, trivial } = add_trivial(
        add_applications(state, applied),
        trivial,
    );
    match simplify_predicates_with_solver(
        environment.definition,
        &remaining.constraints,
        constraints,
        options,
        environment.solver,
    ) {
        Ok(simple) => {
            let mut all = constraints.duplicate();
            extend_unique(&mut all, simple);
            Ok(
                Sequential {
                    remaining: Pattern { term: remaining.term, constraints: all },
                    conditions,
                    applied,
                    trivial,
                },
            )
        },
        Err(error) => Err(
            RewriteResult::Indeterminate {
                pattern: remaining,
                reason: IndeterminateReason::Simplification {
                    rule_id: Some(rule.attributes.unique_id.duplicate()),
                    error,
                },
            },
        ),
    }
}

/// The rules of the groups from `from` on, behind `found`.
pub open spec fn rules_of(groups: GroupsV, found: Seq<RewriteRuleV>, from: int) -> Seq<RewriteRuleV>
    decreases groups.len() - from,
{
    if from >= groups.len() {
        found
    } else {
        rules_of(groups, found + groups[from].1, from + 1)
    }
}

fn flatten_groups<'a>(groups: &Vec<(u8, Vec<&'a RewriteRule>)>) -> (result: Vec<&'a RewriteRule>)
    ensures
        deep(result@) == rules_of(deep(groups@), Seq::empty(), 0),
{
    let mut result: Vec<&'a RewriteRule> = Vec::new();
    let mut i: usize = 0;
    while i < groups.len()
        invariant
            i <= groups.len(),
            rules_of(deep(groups@), Seq::empty(), 0) == rules_of(
                deep(groups@),
                deep(result@),
                i as int,
            ),
        decreases groups.len() - i,
    {
        assert(deep(groups@)[i as int].1 == deep(groups[i as int].1@));
        let ghost before = result@;
        let rules = &groups[i].1;
        let mut j: usize = 0;
        while j < rules.len()
            invariant
                j <= rules.len(),
                result@ == before + rules@.subrange(0, j as int),
            decreases rules.len() - j,
        {
            result.push(rules[j]);
            assert(result@ =~= before + rules@.subrange(0, j as int + 1));
            j += 1;
        }
        assert(result@ =~= before + rules@);
        i += 1;
    }
    result
}

/// The outcome of a step in which the rules were applied one after another.
pub open spec fn sequence_outcome<'a, K: Kernel, S: SmtSolver>(
    environment: Environment<'a, K, S>,
    pattern: PatternV,
    state: SequentialV,
) -> RewriteResultV {
    if state.applied.len() == 0 && state.trivial.len() == 0 {
        RewriteResultV::Stuck(pattern)
    } else {
        let rule_ids = unified_ids(state.applied, state.trivial);
        let left = if conjunction_truth(state.remaining.constraints) is False {
            Ok(SatisfiabilityV::Unsat)
        } else {
            left_of(environment, state.remaining.constraints)
        };
        if !left_is_decided(left) {
            RewriteResultV::Indeterminate {
                pattern,
                reason: IndeterminateReasonV::Remainder {
                    rule_ids,
                    predicates: state.conditions,
                    satisfiability: left,
                },
            }
        } else {
            step_outcome(
                pattern,
                state.applied,
                state.trivial,
                if left->Ok_0 is Sat {
                    Some(RemainderBranchV { pattern: state.remaining, rule_ids })
                } else {
                    None
                },
            )
        }
    }
}

#[verifier::spinoff_prover]
fn make_sequence_outcome<'a, K: Kernel, S: SmtSolver>(
    environment: &Environment<'a, K, S>,
    pattern: &Pattern,
    state: Sequential,
) -> (result: RewriteResult)
    ensures
        result@ == sequence_outcome(*environment, pattern@, state@),
{
    let Sequential { remaining, conditions, applied, trivial } = state;
    if applied.len() == 0 && trivial.len() == 0 {
        return RewriteResult::Stuck(pattern.duplicate());
    }
    let rule_ids = collect_unified_ids(&applied, &trivial);
    let left = if matches!(predicates_truth(&remaining.constraints), Truth::False) {
        Ok(Satisfiability::Unsat)
    } else {
        find_left(environment, &remaining.constraints)
    };
    if !is_left_decided(&left) {
        return RewriteResult::Indeterminate {
            pattern: pattern.duplicate(),
            reason: IndeterminateReason::Remainder {
                rule_ids,
                predicates: conditions,
                satisfiability: left,
            },
        };
    }
    let branch = if let Ok(Satisfiability::Sat) = left {
        Some(RemainderBranch { pattern: remaining, rule_ids })
    } else {
        None
    };
    make_step_outcome(pattern, applied, trivial, branch)
}

/// The outcome of a step with the rules from `from` on, one after another, until nothing is left.
pub open spec fn sequence_stepped<'a, K: Kernel, S: SmtSolver>(
    environment: Environment<'a, K, S>,
    options: SimplificationOptions,
    pattern: PatternV,
    rules: Seq<RewriteRuleV>,
    state: SequentialV,
    counter: u64,
    from: int,
) -> (RewriteResultV, u64)
    decreases rules.len() - from,
{
    if from >= rules.len() || conjunction_truth(state.remaining.constraints) is False {
        (sequence_outcome(environment, pattern, state), counter)
    } else {
        match rule_applied(
            RuleScopeV {
                definition: environment.definition,
                solver: environment.solver,
                rule: rules[from],
                pattern: state.remaining,
                options,
                assume_defined: false,
            },
            REFINEMENTS as nat,
            None,
            counter,
        ) {
            (RuleAttemptV::NotApplicable, after) => sequence_stepped(
                environment,
                options,
                pattern,
                rules,
                state,
                after,
                from + 1,
            ),
            (RuleAttemptV::Indeterminate(reason), after) => (
                RewriteResultV::Indeterminate { pattern: state.remaining, reason },
                after,
            ),
            (RuleAttemptV::Unified { applied, trivial }, after) => match rule_taken(
                environment,
                options,
                pattern.constraints,
                rules[from],
                state,
                (applied, trivial),
            ) {
                Err(outcome) => (outcome, after),
                Ok(next) => sequence_stepped(
                    environment,
                    options,
                    pattern,
                    rules,
                    next,
                    after,
                    from + 1,
                ),
            },
        }
    }
}

/// The state of a step before its first rule.
pub open spec fn sequence_start(pattern: PatternV) -> SequentialV {
    SequentialV {
        remaining: pattern,
        conditions: Seq::empty(),
        applied: Seq::empty(),
        trivial: Seq::empty(),
    }
}

#[verifier::spinoff_prover]
fn rewrite_step_any<'a, K: Kernel, S: SmtSolver>(
    environment: &Environment<'a, K, S>,
    pattern: &Pattern,
    counter: &mut u64,
    options: SimplificationOptions,
) -> (result: RewriteResult)
    ensures
        (result@, *final(counter)) == sequence_stepped(
            *environment,
            options,
            pattern@,
            rules_of(
                groups_for(environment.definition.rewrite_theory@, index_of(pattern@.term)),
                Seq::empty(),
                0,
            ),
            sequence_start(pattern@),
            *old(counter),
            0,
        ),
{
    let groups = applicable_groups(
        &environment.definition.rewrite_theory,
        &term_index(&pattern.term),
    );
    let rules = flatten_groups(&groups);
    sequence_step(environment, pattern, &rules, counter, options)
}

#[verifier::spinoff_prover]
fn sequence_step<'a, K: Kernel, S: SmtSolver>(
    environment: &Environment<'a, K, S>,
    pattern: &Pattern,
    rules: &Vec<&RewriteRule>,
    counter: &mut u64,
    options: SimplificationOptions,
) -> (result: RewriteResult)
    ensures
        (result@, *final(counter)) == sequence_stepped(
            *environment,
            options,
            pattern@,
            deep(rules@),
            sequence_start(pattern@),
            *old(counter),
            0,
        ),
{
    let mut state = Sequential {
        remaining: pattern.duplicate(),
        conditions: Vec::new(),
        applied: Vec::new(),
        trivial: Vec::new(),
    };
    let mut i: usize = 0;
    while i < rules.len()
        invariant
            i <= rules.len(),
            sequence_stepped(
                *environment,
                options,
                pattern@,
                deep(rules@),
                sequence_start(pattern@),
                *old(counter),
                0,
            ) == sequence_stepped(
                *environment,
                options,
                pattern@,
                deep(rules@),
                state@,
                *counter,
                i as int,
            ),
        decreases rules.len() - i,
    {
        assert(deep(rules@)[i as int] == rules[i as int]@);
        if matches!(predicates_truth(&state.remaining.constraints), Truth::False) {
            return make_sequence_outcome(environment, pattern, state);
        }
        let scope = RuleScope {
            definition: environment.definition,
            solver: environment.solver,
            rule: rules[i],
            pattern: &state.remaining,
            options,
            assume_defined: false,
        };
        match apply_rule(&scope, counter) {
            RuleAttempt::NotApplicable => {},
            RuleAttempt::Indeterminate(reason) => {
                return RewriteResult::Indeterminate { pattern: state.remaining, reason };
            },
            RuleAttempt::Unified { applied, trivial } => {
                match take_rule(
                    environment,
                    options,
                    &pattern.constraints,
                    rules[i],
                    state,
                    &applied,
                    &trivial,
                ) {
                    Ok(next) => {
                        state = next;
                    },
                    Err(outcome) => {
                        return outcome;
                    },
                }
            },
        }
        i += 1;
    }
    make_sequence_outcome(environment, pattern, state)
}

// ---------------------------------------------------------------------------------------------
// The step
// ---------------------------------------------------------------------------------------------
/// The outcome of one rewrite step, and the counter for fresh names behind it. A pattern with
/// constraints that do not hold is vacuous.
#[verifier::opaque]
pub open spec fn stepped<'a, K: Kernel, S: SmtSolver>(
    environment: Environment<'a, K, S>,
    pattern: PatternV,
    counter: u64,
    options: SimplificationOptions,
    mode: ExecutionMode,
    assume_defined: bool,
) -> (RewriteResultV, u64) {
    let groups = groups_for(environment.definition.rewrite_theory@, index_of(pattern.term));
    if conjunction_truth(pattern.constraints) is False {
        (RewriteResultV::Vacuous(pattern), counter)
    } else {
        match mode {
            ExecutionMode::All => groups_stepped(
                environment,
                options,
                pattern,
                assume_defined,
                groups,
                counter,
                0,
            ),
            ExecutionMode::Any => sequence_stepped(
                environment,
                options,
                pattern,
                rules_of(groups, Seq::empty(), 0),
                sequence_start(pattern),
                counter,
                0,
            ),
        }
    }
}

/// Make one rewrite step in the given mode.
#[verifier::spinoff_prover]
pub(crate) fn rewrite_step_with_mode<K: Kernel, S: SmtSolver>(
    definition: &BackendDefinition<K>,
    pattern: &Pattern,
    counter: &mut u64,
    options: SimplificationOptions,
    solver: &S,
    mode: ExecutionMode,
    assume_defined: bool,
) -> (result: RewriteResult)
    ensures
        (result@, *final(counter)) == stepped(
            Environment { definition, solver },
            pattern@,
            *old(counter),
            options,
            mode,
            assume_defined,
        ),
{
    reveal(stepped);
    let environment = Environment { definition, solver };
    if matches!(predicates_truth(&pattern.constraints), Truth::False) {
        return RewriteResult::Vacuous(pattern.duplicate());
    }
    match mode {
        ExecutionMode::All => rewrite_step_all(
            &environment,
            pattern,
            counter,
            options,
            assume_defined,
        ),
        ExecutionMode::Any => rewrite_step_any(&environment, pattern, counter, options),
    }
}

/// The options of a step for which none are given.
pub open spec fn default_options() -> SimplificationOptions {
    SimplificationOptions {
        max_iterations: DEFAULT_MAX_SIMPLIFICATION_ITERATIONS,
        budget: BudgetPolicy::Fail,
    }
}

/// Make one rewrite step without a solver.
pub fn rewrite_step<K: Kernel>(
    definition: &BackendDefinition<K>,
    pattern: &Pattern,
    fresh_counter: &mut u64,
) -> (result: RewriteResult)
    ensures
        (result@, *final(fresh_counter)) == stepped(
            Environment { definition, solver: &NoSolver },
            pattern@,
            *old(fresh_counter),
            default_options(),
            ExecutionMode::All,
            false,
        ),
{
    rewrite_step_with_solver(definition, pattern, fresh_counter, &NoSolver)
}

/// Make one rewrite step: the rules of the first priority that unify are applied, each to the whole
/// pattern.
pub fn rewrite_step_with_solver<K: Kernel, S: SmtSolver>(
    definition: &BackendDefinition<K>,
    pattern: &Pattern,
    fresh_counter: &mut u64,
    solver: &S,
) -> (result: RewriteResult)
    ensures
        (result@, *final(fresh_counter)) == stepped(
            Environment { definition, solver },
            pattern@,
            *old(fresh_counter),
            default_options(),
            ExecutionMode::All,
            false,
        ),
{
    rewrite_step_with_options(
        definition,
        pattern,
        fresh_counter,
        SimplificationOptions::default(),
        solver,
    )
}

/// Make one rewrite step: the rules are applied one after another, each to what the rules before
/// leave.
pub fn rewrite_step_sequential_with_solver<K: Kernel, S: SmtSolver>(
    definition: &BackendDefinition<K>,
    pattern: &Pattern,
    fresh_counter: &mut u64,
    solver: &S,
) -> (result: RewriteResult)
    ensures
        (result@, *final(fresh_counter)) == stepped(
            Environment { definition, solver },
            pattern@,
            *old(fresh_counter),
            default_options(),
            ExecutionMode::Any,
            false,
        ),
{
    rewrite_step_sequential_with_options(
        definition,
        pattern,
        fresh_counter,
        SimplificationOptions::default(),
        solver,
    )
}

/// A step that applies all rules of a priority, under the given options.
pub(crate) fn rewrite_step_with_options<K: Kernel, S: SmtSolver>(
    definition: &BackendDefinition<K>,
    pattern: &Pattern,
    fresh_counter: &mut u64,
    options: SimplificationOptions,
    solver: &S,
) -> (result: RewriteResult)
    ensures
        (result@, *final(fresh_counter)) == stepped(
            Environment { definition, solver },
            pattern@,
            *old(fresh_counter),
            options,
            ExecutionMode::All,
            false,
        ),
{
    rewrite_step_with_mode(
        definition,
        pattern,
        fresh_counter,
        options,
        solver,
        ExecutionMode::All,
        false,
    )
}

/// A step that applies the rules one after another, under the given options.
pub(crate) fn rewrite_step_sequential_with_options<K: Kernel, S: SmtSolver>(
    definition: &BackendDefinition<K>,
    pattern: &Pattern,
    fresh_counter: &mut u64,
    options: SimplificationOptions,
    solver: &S,
) -> (result: RewriteResult)
    ensures
        (result@, *final(fresh_counter)) == stepped(
            Environment { definition, solver },
            pattern@,
            *old(fresh_counter),
            options,
            ExecutionMode::Any,
            false,
        ),
{
    rewrite_step_with_mode(
        definition,
        pattern,
        fresh_counter,
        options,
        solver,
        ExecutionMode::Any,
        false,
    )
}

} // verus!
