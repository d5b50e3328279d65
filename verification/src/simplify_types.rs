//! Options, results and errors of simplification.

use vstd::prelude::*;
use crate::kernel::{
    BuiltinEffect, BuiltinEffectV, BuiltinError, BuiltinErrorV, UnsupportedHookReason,
    UnsupportedHookReasonV,
};
use crate::model::{deep, group_deep, Value};
use crate::pattern::{Pattern, PatternV};
use crate::predicate::{Predicate, PredicateV};
use crate::solver::{SmtError, SmtErrorV};
use crate::term::{Term, TermV};
use crate::text::is_text;

verus! {

broadcast use group_deep;

/// Default equation iterations allowed for each simplification fixed point.
pub const DEFAULT_MAX_SIMPLIFICATION_ITERATIONS: usize = 100;

/// What to do when the iterations are used up.
#[derive(Clone, Copy, Debug, PartialEq, Eq, Structural)]
pub enum BudgetPolicy {
    Fail,
    KeepPartial,
}

impl Default for BudgetPolicy {
    fn default() -> (policy: Self)
        ensures
            policy == BudgetPolicy::Fail,
    {
        BudgetPolicy::Fail
    }
}

/// What was simplified when the iterations were used up.
#[derive(Clone, Copy, Debug, PartialEq, Eq, Structural)]
pub enum BudgetSubject {
    Term,
    Predicates,
}

/// That the iterations were used up.
#[derive(Clone, Copy, Debug, PartialEq, Eq, Structural)]
pub struct BudgetExhaustion {
    pub limit: usize,
    pub subject: BudgetSubject,
}

impl DeepView for BudgetExhaustion {
    type V = BudgetExhaustion;

    open spec fn deep_view(&self) -> BudgetExhaustion {
        *self
    }
}

impl Value for BudgetExhaustion {
    fn duplicate(&self) -> (copy: Self) {
        *self
    }

    fn equals(&self, other: &Self) -> (same: bool) {
        *self == *other
    }
}

/// How far simplification goes.
#[derive(Clone, Copy, Debug, PartialEq, Eq, Structural)]
pub struct SimplificationOptions {
    pub max_iterations: usize,
    pub budget: BudgetPolicy,
}

impl Default for SimplificationOptions {
    fn default() -> (options: Self)
        ensures
            options.max_iterations == DEFAULT_MAX_SIMPLIFICATION_ITERATIONS,
            options.budget == BudgetPolicy::Fail,
    {
        SimplificationOptions {
            max_iterations: DEFAULT_MAX_SIMPLIFICATION_ITERATIONS,
            budget: BudgetPolicy::Fail,
        }
    }
}

impl SimplificationOptions {
    /// Evaluate to a fixed point without a bound on equation iterations.
    pub fn unbounded() -> (options: Self)
        ensures
            options == (SimplificationOptions {
                max_iterations: usize::MAX,
                budget: BudgetPolicy::Fail,
            }),
    {
        SimplificationOptions { max_iterations: usize::MAX, budget: BudgetPolicy::Fail }
    }

    /// Keep what was reached when the iterations are used up.
    pub fn keep_partial(max_iterations: usize) -> (options: Self)
        ensures
            options == (SimplificationOptions {
                max_iterations,
                budget: BudgetPolicy::KeepPartial,
            }),
    {
        SimplificationOptions { max_iterations, budget: BudgetPolicy::KeepPartial }
    }
}

impl Value for &'static str {
    fn duplicate(&self) -> (copy: Self) {
        *self
    }

    fn equals(&self, other: &Self) -> (same: bool) {
        let own = (*self).to_owned();
        is_text(&own, *other)
    }
}

/// A simplified term, what has to hold for it, and how it was reached.
#[derive(Debug, PartialEq, Eq)]
pub struct Simplification {
    pub term: Term,
    pub constraints: Vec<Predicate>,
    pub applied_rules: Vec<String>,
    pub effects: Vec<BuiltinEffect>,
    pub exhausted: Option<BudgetExhaustion>,
}

/// The view of [`Simplification`].
pub struct SimplificationV {
    pub term: TermV,
    pub constraints: Seq<PredicateV>,
    pub applied_rules: Seq<Seq<char>>,
    pub effects: Seq<BuiltinEffectV>,
    pub exhausted: Option<BudgetExhaustion>,
}

impl View for Simplification {
    type V = SimplificationV;

    open spec fn view(&self) -> SimplificationV {
        SimplificationV {
            term: self.term@,
            constraints: deep(self.constraints@),
            applied_rules: deep(self.applied_rules@),
            effects: deep(self.effects@),
            exhausted: self.exhausted.deep_view(),
        }
    }
}

impl DeepView for Simplification {
    type V = SimplificationV;

    open spec fn deep_view(&self) -> SimplificationV {
        self@
    }
}

impl Value for Simplification {
    fn duplicate(&self) -> (copy: Self) {
        Simplification {
            term: self.term.duplicate(),
            constraints: self.constraints.duplicate(),
            applied_rules: self.applied_rules.duplicate(),
            effects: self.effects.duplicate(),
            exhausted: self.exhausted.duplicate(),
        }
    }

    fn equals(&self, other: &Self) -> (same: bool) {
        self.term.equals(&other.term)
            && self.constraints.equals(&other.constraints)
            && self.applied_rules.equals(&other.applied_rules)
            && self.effects.equals(&other.effects)
            && self.exhausted.equals(&other.exhausted)
    }
}

/// A simplified pattern, and how its term was reached.
#[derive(Debug, PartialEq, Eq)]
pub struct PatternSimplification {
    pub pattern: Pattern,
    pub applied_rules: Vec<String>,
    pub effects: Vec<BuiltinEffect>,
}

/// The view of [`PatternSimplification`].
pub struct PatternSimplificationV {
    pub pattern: PatternV,
    pub applied_rules: Seq<Seq<char>>,
    pub effects: Seq<BuiltinEffectV>,
}

impl View for PatternSimplification {
    type V = PatternSimplificationV;

    open spec fn view(&self) -> PatternSimplificationV {
        PatternSimplificationV {
            pattern: self.pattern@,
            applied_rules: deep(self.applied_rules@),
            effects: deep(self.effects@),
        }
    }
}

impl DeepView for PatternSimplification {
    type V = PatternSimplificationV;

    open spec fn deep_view(&self) -> PatternSimplificationV {
        self@
    }
}

impl Value for PatternSimplification {
    fn duplicate(&self) -> (copy: Self) {
        PatternSimplification {
            pattern: self.pattern.duplicate(),
            applied_rules: self.applied_rules.duplicate(),
            effects: self.effects.duplicate(),
        }
    }

    fn equals(&self, other: &Self) -> (same: bool) {
        self.pattern.equals(&other.pattern)
            && self.applied_rules.equals(&other.applied_rules)
            && self.effects.equals(&other.effects)
    }
}

/// Why a term or predicate could not be simplified.
#[allow(inconsistent_fields)]
#[derive(Debug, PartialEq, Eq)]
pub enum SimplificationError {
    Cancelled,
    Builtin(BuiltinError),
    DisjunctiveResult { rule_id: String, alternatives: usize },
    TopEquationOutsideConjunction { rule_id: String },
    Smt { rule_id: String, error: SmtError },
    SmtPredicate { predicate: Box<Predicate>, error: SmtError },
    IterationLimit { limit: usize, term: Term },
    PredicateIterationLimit { limit: usize, predicate: Predicate },
    InvalidBuiltinResultSymbol { hook: &'static str, symbol: &'static str },
    UnsupportedHook { hook: String, reason: UnsupportedHookReason, term: Term },
}

/// The view of [`SimplificationError`].
pub enum SimplificationErrorV {
    Cancelled,
    Builtin(BuiltinErrorV),
    DisjunctiveResult { rule_id: Seq<char>, alternatives: usize },
    TopEquationOutsideConjunction { rule_id: Seq<char> },
    Smt { rule_id: Seq<char>, error: SmtErrorV },
    SmtPredicate { predicate: PredicateV, error: SmtErrorV },
    IterationLimit { limit: usize, term: TermV },
    PredicateIterationLimit { limit: usize, predicate: PredicateV },
    InvalidBuiltinResultSymbol { hook: Seq<char>, symbol: Seq<char> },
    UnsupportedHook { hook: Seq<char>, reason: UnsupportedHookReasonV, term: TermV },
}

impl View for SimplificationError {
    type V = SimplificationErrorV;

    open spec fn view(&self) -> SimplificationErrorV {
        match self {
            SimplificationError::Cancelled => SimplificationErrorV::Cancelled,
            SimplificationError::Builtin(first) => SimplificationErrorV::Builtin(first@),
            SimplificationError::DisjunctiveResult {
                rule_id,
                alternatives,
            } => SimplificationErrorV::DisjunctiveResult {
                rule_id: rule_id@,
                alternatives: *alternatives,
            },
            SimplificationError::TopEquationOutsideConjunction {
                rule_id,
            } => SimplificationErrorV::TopEquationOutsideConjunction { rule_id: rule_id@ },
            SimplificationError::Smt { rule_id, error } => SimplificationErrorV::Smt {
                rule_id: rule_id@,
                error: error@,
            },
            SimplificationError::SmtPredicate {
                predicate,
                error,
            } => SimplificationErrorV::SmtPredicate {
                predicate: predicate.deep_view(),
                error: error@,
            },
            SimplificationError::IterationLimit {
                limit,
                term,
            } => SimplificationErrorV::IterationLimit { limit: *limit, term: term@ },
            SimplificationError::PredicateIterationLimit {
                limit,
                predicate,
            } => SimplificationErrorV::PredicateIterationLimit {
                limit: *limit,
                predicate: predicate@,
            },
            SimplificationError::InvalidBuiltinResultSymbol {
                hook,
                symbol,
            } => SimplificationErrorV::InvalidBuiltinResultSymbol { hook: hook@, symbol: symbol@ },
            SimplificationError::UnsupportedHook {
                hook,
                reason,
                term,
            } => SimplificationErrorV::UnsupportedHook {
                hook: hook@,
                reason: reason@,
                term: term@,
            },
        }
    }
}

impl DeepView for SimplificationError {
    type V = SimplificationErrorV;

    open spec fn deep_view(&self) -> SimplificationErrorV {
        self@
    }
}

impl Value for SimplificationError {
    fn duplicate(&self) -> (copy: Self) {
        match self {
            SimplificationError::Cancelled => SimplificationError::Cancelled,
            SimplificationError::Builtin(first) => SimplificationError::Builtin(first.duplicate()),
            SimplificationError::DisjunctiveResult {
                rule_id,
                alternatives,
            } => SimplificationError::DisjunctiveResult {
                rule_id: rule_id.clone(),
                alternatives: *alternatives,
            },
            SimplificationError::TopEquationOutsideConjunction {
                rule_id,
            } => SimplificationError::TopEquationOutsideConjunction { rule_id: rule_id.clone() },
            SimplificationError::Smt { rule_id, error } => SimplificationError::Smt {
                rule_id: rule_id.clone(),
                error: error.duplicate(),
            },
            SimplificationError::SmtPredicate {
                predicate,
                error,
            } => SimplificationError::SmtPredicate {
                predicate: Box::new(predicate.duplicate()),
                error: error.duplicate(),
            },
            SimplificationError::IterationLimit {
                limit,
                term,
            } => SimplificationError::IterationLimit { limit: *limit, term: term.duplicate() },
            SimplificationError::PredicateIterationLimit {
                limit,
                predicate,
            } => SimplificationError::PredicateIterationLimit {
                limit: *limit,
                predicate: predicate.duplicate(),
            },
            SimplificationError::InvalidBuiltinResultSymbol {
                hook,
                symbol,
            } => SimplificationError::InvalidBuiltinResultSymbol { hook: *hook, symbol: *symbol },
            SimplificationError::UnsupportedHook {
                hook,
                reason,
                term,
            } => SimplificationError::UnsupportedHook {
                hook: hook.clone(),
                reason: reason.duplicate(),
                term: term.duplicate(),
            },
        }
    }

    fn equals(&self, other: &Self) -> (same: bool) {
        match (self, other) {
            (SimplificationError::Cancelled, SimplificationError::Cancelled) => true,
            (SimplificationError::Builtin(first), SimplificationError::Builtin(other_first)) => first.equals(
                other_first,
            ),
            (
                SimplificationError::DisjunctiveResult { rule_id, alternatives },
                SimplificationError::DisjunctiveResult {
                    rule_id: other_rule_id,
                    alternatives: other_alternatives,
                },
            ) => *rule_id == *other_rule_id && *alternatives == *other_alternatives,
            (
                SimplificationError::TopEquationOutsideConjunction { rule_id },
                SimplificationError::TopEquationOutsideConjunction { rule_id: other_rule_id },
            ) => *rule_id == *other_rule_id,
            (
                SimplificationError::Smt { rule_id, error },
                SimplificationError::Smt { rule_id: other_rule_id, error: other_error },
            ) => *rule_id == *other_rule_id && error.equals(other_error),
            (
                SimplificationError::SmtPredicate { predicate, error },
                SimplificationError::SmtPredicate {
                    predicate: other_predicate,
                    error: other_error,
                },
            ) => predicate.equals(other_predicate) && error.equals(other_error),
            (
                SimplificationError::IterationLimit { limit, term },
                SimplificationError::IterationLimit { limit: other_limit, term: other_term },
            ) => *limit == *other_limit && term.equals(other_term),
            (
                SimplificationError::PredicateIterationLimit { limit, predicate },
                SimplificationError::PredicateIterationLimit {
                    limit: other_limit,
                    predicate: other_predicate,
                },
            ) => *limit == *other_limit && predicate.equals(other_predicate),
            (
                SimplificationError::InvalidBuiltinResultSymbol { hook, symbol },
                SimplificationError::InvalidBuiltinResultSymbol {
                    hook: other_hook,
                    symbol: other_symbol,
                },
            ) => hook.equals(other_hook) && symbol.equals(other_symbol),
            (
                SimplificationError::UnsupportedHook { hook, reason, term },
                SimplificationError::UnsupportedHook {
                    hook: other_hook,
                    reason: other_reason,
                    term: other_term,
                },
            ) => *hook == *other_hook && reason.equals(other_reason) && term.equals(other_term),
            _ => false,
        }
    }
}

/// Why the condition of a rule could not be decided.
#[derive(Debug, PartialEq, Eq)]
pub enum ConditionIndeterminacy {
    NoSolver,
    ImplicationIndeterminate,
    SmtUnknown(String),
    InconsistentPathCondition,
}

/// The view of [`ConditionIndeterminacy`].
pub enum ConditionIndeterminacyV {
    NoSolver,
    ImplicationIndeterminate,
    SmtUnknown(Seq<char>),
    InconsistentPathCondition,
}

impl View for ConditionIndeterminacy {
    type V = ConditionIndeterminacyV;

    open spec fn view(&self) -> ConditionIndeterminacyV {
        match self {
            ConditionIndeterminacy::NoSolver => ConditionIndeterminacyV::NoSolver,
            ConditionIndeterminacy::ImplicationIndeterminate => ConditionIndeterminacyV::ImplicationIndeterminate,
            ConditionIndeterminacy::SmtUnknown(first) => ConditionIndeterminacyV::SmtUnknown(
                first@,
            ),
            ConditionIndeterminacy::InconsistentPathCondition => ConditionIndeterminacyV::InconsistentPathCondition,
        }
    }
}

impl DeepView for ConditionIndeterminacy {
    type V = ConditionIndeterminacyV;

    open spec fn deep_view(&self) -> ConditionIndeterminacyV {
        self@
    }
}

impl Value for ConditionIndeterminacy {
    fn duplicate(&self) -> (copy: Self) {
        match self {
            ConditionIndeterminacy::NoSolver => ConditionIndeterminacy::NoSolver,
            ConditionIndeterminacy::ImplicationIndeterminate => ConditionIndeterminacy::ImplicationIndeterminate,
            ConditionIndeterminacy::SmtUnknown(first) => ConditionIndeterminacy::SmtUnknown(
                first.clone(),
            ),
            ConditionIndeterminacy::InconsistentPathCondition => ConditionIndeterminacy::InconsistentPathCondition,
        }
    }

    fn equals(&self, other: &Self) -> (same: bool) {
        match (self, other) {
            (ConditionIndeterminacy::NoSolver, ConditionIndeterminacy::NoSolver) => true,
            (
                ConditionIndeterminacy::ImplicationIndeterminate,
                ConditionIndeterminacy::ImplicationIndeterminate,
            ) => true,
            (
                ConditionIndeterminacy::SmtUnknown(first),
                ConditionIndeterminacy::SmtUnknown(other_first),
            ) => *first == *other_first,
            (
                ConditionIndeterminacy::InconsistentPathCondition,
                ConditionIndeterminacy::InconsistentPathCondition,
            ) => true,
            _ => false,
        }
    }
}

/// What is known of the condition of a rule.
#[derive(Debug, PartialEq, Eq)]
pub enum RuleCondition {
    Satisfied,
    Refuted,
    Indeterminate(ConditionIndeterminacy),
}

/// The view of [`RuleCondition`].
pub enum RuleConditionV {
    Satisfied,
    Refuted,
    Indeterminate(ConditionIndeterminacyV),
}

impl View for RuleCondition {
    type V = RuleConditionV;

    open spec fn view(&self) -> RuleConditionV {
        match self {
            RuleCondition::Satisfied => RuleConditionV::Satisfied,
            RuleCondition::Refuted => RuleConditionV::Refuted,
            RuleCondition::Indeterminate(first) => RuleConditionV::Indeterminate(first@),
        }
    }
}

impl DeepView for RuleCondition {
    type V = RuleConditionV;

    open spec fn deep_view(&self) -> RuleConditionV {
        self@
    }
}

impl Value for RuleCondition {
    fn duplicate(&self) -> (copy: Self) {
        match self {
            RuleCondition::Satisfied => RuleCondition::Satisfied,
            RuleCondition::Refuted => RuleCondition::Refuted,
            RuleCondition::Indeterminate(first) => RuleCondition::Indeterminate(first.duplicate()),
        }
    }

    fn equals(&self, other: &Self) -> (same: bool) {
        match (self, other) {
            (RuleCondition::Satisfied, RuleCondition::Satisfied) => true,
            (RuleCondition::Refuted, RuleCondition::Refuted) => true,
            (RuleCondition::Indeterminate(first), RuleCondition::Indeterminate(other_first)) => first.equals(
                other_first,
            ),
            _ => false,
        }
    }
}

/// What is known of the predicates that an equation ensures.
#[derive(Debug, PartialEq, Eq)]
pub enum EnsuresVerdict {
    Refuted,
    Holds,
    Open(Vec<Predicate>),
}

/// The view of [`EnsuresVerdict`].
pub enum EnsuresVerdictV {
    Refuted,
    Holds,
    Open(Seq<PredicateV>),
}

impl View for EnsuresVerdict {
    type V = EnsuresVerdictV;

    open spec fn view(&self) -> EnsuresVerdictV {
        match self {
            EnsuresVerdict::Refuted => EnsuresVerdictV::Refuted,
            EnsuresVerdict::Holds => EnsuresVerdictV::Holds,
            EnsuresVerdict::Open(first) => EnsuresVerdictV::Open(deep(first@)),
        }
    }
}

impl DeepView for EnsuresVerdict {
    type V = EnsuresVerdictV;

    open spec fn deep_view(&self) -> EnsuresVerdictV {
        self@
    }
}

impl Value for EnsuresVerdict {
    fn duplicate(&self) -> (copy: Self) {
        match self {
            EnsuresVerdict::Refuted => EnsuresVerdict::Refuted,
            EnsuresVerdict::Holds => EnsuresVerdict::Holds,
            EnsuresVerdict::Open(first) => EnsuresVerdict::Open(first.duplicate()),
        }
    }

    fn equals(&self, other: &Self) -> (same: bool) {
        match (self, other) {
            (EnsuresVerdict::Refuted, EnsuresVerdict::Refuted) => true,
            (EnsuresVerdict::Holds, EnsuresVerdict::Holds) => true,
            (EnsuresVerdict::Open(first), EnsuresVerdict::Open(other_first)) => first.equals(
                other_first,
            ),
            _ => false,
        }
    }
}

} // verus!
