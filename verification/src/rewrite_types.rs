//! What one rewrite step gives.

use vstd::prelude::*;
use crate::kernel::{duplicate_result, equal_results, result_view, BuiltinEffect, BuiltinEffectV};
use crate::model::{deep, group_deep, Value};
use crate::pattern::{Pattern, PatternV};
use crate::predicate::{Predicate, PredicateV};
use crate::simplify_types::{SimplificationError, SimplificationErrorV};
use crate::solver::{Satisfiability, SatisfiabilityV, SmtError, SmtErrorV};
use crate::substitution::{Substitution, SubstitutionV};
use crate::term::{Term, TermV, Variable, VariableV};

verus! {

broadcast use group_deep;

/// A rule that was applied.
#[derive(Debug, PartialEq, Eq)]
pub struct AppliedRule {
    /// The pattern to which the rule was applied.
    pub before: Pattern,
    pub pattern: Pattern,
    pub label: Option<String>,
    pub unique_id: String,
    pub substitution: Substitution,
    /// The bindings of the rule's variables but those that are mere aliases of terms.
    pub rule_substitution: Substitution,
    /// The conditions that this application added to the constraints of the pattern.
    pub rule_predicates: Vec<Predicate>,
    pub effects: Vec<BuiltinEffect>,
}

/// The view of [`AppliedRule`].
pub struct AppliedRuleV {
    pub before: PatternV,
    pub pattern: PatternV,
    pub label: Option<Seq<char>>,
    pub unique_id: Seq<char>,
    pub substitution: SubstitutionV,
    pub rule_substitution: SubstitutionV,
    pub rule_predicates: Seq<PredicateV>,
    pub effects: Seq<BuiltinEffectV>,
}

impl View for AppliedRule {
    type V = AppliedRuleV;

    open spec fn view(&self) -> AppliedRuleV {
        AppliedRuleV {
            before: self.before@,
            pattern: self.pattern@,
            label: self.label.deep_view(),
            unique_id: self.unique_id@,
            substitution: self.substitution@,
            rule_substitution: self.rule_substitution@,
            rule_predicates: deep(self.rule_predicates@),
            effects: deep(self.effects@),
        }
    }
}

impl DeepView for AppliedRule {
    type V = AppliedRuleV;

    open spec fn deep_view(&self) -> AppliedRuleV {
        self@
    }
}

impl Value for AppliedRule {
    fn duplicate(&self) -> (copy: Self) {
        AppliedRule {
            before: self.before.duplicate(),
            pattern: self.pattern.duplicate(),
            label: self.label.duplicate(),
            unique_id: self.unique_id.clone(),
            substitution: self.substitution.duplicate(),
            rule_substitution: self.rule_substitution.duplicate(),
            rule_predicates: self.rule_predicates.duplicate(),
            effects: self.effects.duplicate(),
        }
    }

    fn equals(&self, other: &Self) -> (same: bool) {
        self.before.equals(&other.before)
            && self.pattern.equals(&other.pattern)
            && self.label.equals(&other.label)
            && self.unique_id == other.unique_id
            && self.substitution.equals(&other.substitution)
            && self.rule_substitution.equals(&other.rule_substitution)
            && self.rule_predicates.equals(&other.rule_predicates)
            && self.effects.equals(&other.effects)
    }
}

/// What is left of a pattern where none of the rules applies.
#[derive(Debug, PartialEq, Eq)]
pub struct RemainderBranch {
    pub pattern: Pattern,
    pub rule_ids: Vec<String>,
}

/// The view of [`RemainderBranch`].
pub struct RemainderBranchV {
    pub pattern: PatternV,
    pub rule_ids: Seq<Seq<char>>,
}

impl View for RemainderBranch {
    type V = RemainderBranchV;

    open spec fn view(&self) -> RemainderBranchV {
        RemainderBranchV {
            pattern: self.pattern@,
            rule_ids: deep(self.rule_ids@),
        }
    }
}

impl DeepView for RemainderBranch {
    type V = RemainderBranchV;

    open spec fn deep_view(&self) -> RemainderBranchV {
        self@
    }
}

impl Value for RemainderBranch {
    fn duplicate(&self) -> (copy: Self) {
        RemainderBranch {
            pattern: self.pattern.duplicate(),
            rule_ids: self.rule_ids.duplicate(),
        }
    }

    fn equals(&self, other: &Self) -> (same: bool) {
        self.pattern.equals(&other.pattern)
            && self.rule_ids.equals(&other.rule_ids)
    }
}

/// A rule that unified but whose result is no value at all.
#[derive(Debug, PartialEq, Eq)]
pub struct TrivialApplication {
    pub rule_id: String,
    pub label: Option<String>,
    /// The case in which the rule applies.
    pub applicability: Predicate,
    /// The other case.
    pub remainder: Predicate,
}

/// The view of [`TrivialApplication`].
pub struct TrivialApplicationV {
    pub rule_id: Seq<char>,
    pub label: Option<Seq<char>>,
    pub applicability: PredicateV,
    pub remainder: PredicateV,
}

impl View for TrivialApplication {
    type V = TrivialApplicationV;

    open spec fn view(&self) -> TrivialApplicationV {
        TrivialApplicationV {
            rule_id: self.rule_id@,
            label: self.label.deep_view(),
            applicability: self.applicability@,
            remainder: self.remainder@,
        }
    }
}

impl DeepView for TrivialApplication {
    type V = TrivialApplicationV;

    open spec fn deep_view(&self) -> TrivialApplicationV {
        self@
    }
}

impl Value for TrivialApplication {
    fn duplicate(&self) -> (copy: Self) {
        TrivialApplication {
            rule_id: self.rule_id.clone(),
            label: self.label.duplicate(),
            applicability: self.applicability.duplicate(),
            remainder: self.remainder.duplicate(),
        }
    }

    fn equals(&self, other: &Self) -> (same: bool) {
        self.rule_id == other.rule_id
            && self.label.equals(&other.label)
            && self.applicability.equals(&other.applicability)
            && self.remainder.equals(&other.remainder)
    }
}

/// Why it is not known whether a rule applies.
#[derive(Debug, PartialEq, Eq)]
#[allow(inconsistent_fields)]
pub enum IndeterminateReason {
    Simplification { rule_id: Option<String>, error: SimplificationError },
    Match { rule_id: String, substitution: Substitution, remainder: Vec<(Term, Term)> },
    /// On a concrete term, every variable of a rule's left-hand side must be bound.
    Instantiation { rule_id: String, missing_variables: Vec<Variable> },
    Requires { rule_id: String, predicates: Vec<Predicate> },
    Smt { rule_id: String, error: SmtError },
    Remainder {
        rule_ids: Vec<String>,
        predicates: Vec<Predicate>,
        satisfiability: Result<Satisfiability, SmtError>,
    },
}

/// The view of [`IndeterminateReason`].
#[allow(inconsistent_fields)]
pub enum IndeterminateReasonV {
    Simplification { rule_id: Option<Seq<char>>, error: SimplificationErrorV },
    Match { rule_id: Seq<char>, substitution: SubstitutionV, remainder: Seq<(TermV, TermV)> },
    Instantiation { rule_id: Seq<char>, missing_variables: Seq<VariableV> },
    Requires { rule_id: Seq<char>, predicates: Seq<PredicateV> },
    Smt { rule_id: Seq<char>, error: SmtErrorV },
    Remainder {
        rule_ids: Seq<Seq<char>>,
        predicates: Seq<PredicateV>,
        satisfiability: Result<SatisfiabilityV, SmtErrorV>,
    },
}

impl View for IndeterminateReason {
    type V = IndeterminateReasonV;

    open spec fn view(&self) -> IndeterminateReasonV {
        match self {
            IndeterminateReason::Simplification {
                rule_id,
                error,
            } => IndeterminateReasonV::Simplification {
                rule_id: rule_id.deep_view(),
                error: error@,
            },
            IndeterminateReason::Match {
                rule_id,
                substitution,
                remainder,
            } => IndeterminateReasonV::Match {
                rule_id: rule_id@,
                substitution: substitution@,
                remainder: deep(remainder@),
            },
            IndeterminateReason::Instantiation {
                rule_id,
                missing_variables,
            } => IndeterminateReasonV::Instantiation {
                rule_id: rule_id@,
                missing_variables: deep(missing_variables@),
            },
            IndeterminateReason::Requires {
                rule_id,
                predicates,
            } => IndeterminateReasonV::Requires {
                rule_id: rule_id@,
                predicates: deep(predicates@),
            },
            IndeterminateReason::Smt { rule_id, error } => IndeterminateReasonV::Smt {
                rule_id: rule_id@,
                error: error@,
            },
            IndeterminateReason::Remainder {
                rule_ids,
                predicates,
                satisfiability,
            } => IndeterminateReasonV::Remainder {
                rule_ids: deep(rule_ids@),
                predicates: deep(predicates@),
                satisfiability: result_view(*satisfiability),
            },
        }
    }
}

impl DeepView for IndeterminateReason {
    type V = IndeterminateReasonV;

    open spec fn deep_view(&self) -> IndeterminateReasonV {
        self@
    }
}

impl Value for IndeterminateReason {
    fn duplicate(&self) -> (copy: Self) {
        match self {
            IndeterminateReason::Simplification {
                rule_id,
                error,
            } => IndeterminateReason::Simplification {
                rule_id: rule_id.duplicate(),
                error: error.duplicate(),
            },
            IndeterminateReason::Match {
                rule_id,
                substitution,
                remainder,
            } => IndeterminateReason::Match {
                rule_id: rule_id.clone(),
                substitution: substitution.duplicate(),
                remainder: remainder.duplicate(),
            },
            IndeterminateReason::Instantiation {
                rule_id,
                missing_variables,
            } => IndeterminateReason::Instantiation {
                rule_id: rule_id.clone(),
                missing_variables: missing_variables.duplicate(),
            },
            IndeterminateReason::Requires { rule_id, predicates } => IndeterminateReason::Requires {
                rule_id: rule_id.clone(),
                predicates: predicates.duplicate(),
            },
            IndeterminateReason::Smt { rule_id, error } => IndeterminateReason::Smt {
                rule_id: rule_id.clone(),
                error: error.duplicate(),
            },
            IndeterminateReason::Remainder {
                rule_ids,
                predicates,
                satisfiability,
            } => IndeterminateReason::Remainder {
                rule_ids: rule_ids.duplicate(),
                predicates: predicates.duplicate(),
                satisfiability: duplicate_result(satisfiability),
            },
        }
    }

    fn equals(&self, other: &Self) -> (same: bool) {
        match (self, other) {
            (
                IndeterminateReason::Simplification { rule_id, error },
                IndeterminateReason::Simplification { rule_id: other_rule_id, error: other_error },
            ) => rule_id.equals(other_rule_id) && error.equals(other_error),
            (
                IndeterminateReason::Match { rule_id, substitution, remainder },
                IndeterminateReason::Match {
                    rule_id: other_rule_id,
                    substitution: other_substitution,
                    remainder: other_remainder,
                },
            ) => *rule_id == *other_rule_id
                && substitution.equals(other_substitution)
                && remainder.equals(other_remainder),
            (
                IndeterminateReason::Instantiation { rule_id, missing_variables },
                IndeterminateReason::Instantiation {
                    rule_id: other_rule_id,
                    missing_variables: other_missing_variables,
                },
            ) => *rule_id == *other_rule_id && missing_variables.equals(other_missing_variables),
            (
                IndeterminateReason::Requires { rule_id, predicates },
                IndeterminateReason::Requires {
                    rule_id: other_rule_id,
                    predicates: other_predicates,
                },
            ) => *rule_id == *other_rule_id && predicates.equals(other_predicates),
            (
                IndeterminateReason::Smt { rule_id, error },
                IndeterminateReason::Smt { rule_id: other_rule_id, error: other_error },
            ) => *rule_id == *other_rule_id && error.equals(other_error),
            (
                IndeterminateReason::Remainder { rule_ids, predicates, satisfiability },
                IndeterminateReason::Remainder {
                    rule_ids: other_rule_ids,
                    predicates: other_predicates,
                    satisfiability: other_satisfiability,
                },
            ) => rule_ids.equals(other_rule_ids)
                && predicates.equals(other_predicates)
                && equal_results(satisfiability, other_satisfiability),
            _ => false,
        }
    }
}

/// The outcome of one rewrite step.
#[derive(Debug, PartialEq, Eq)]
pub enum RewriteResult {
    Stuck(Pattern),
    Trivial(Pattern),
    Vacuous(Pattern),
    Finished(AppliedRule),
    Branch {
        original: Pattern,
        branches: Vec<AppliedRule>,
        remainder: Option<RemainderBranch>,
        trivial: Vec<TrivialApplication>,
    },
    Indeterminate { pattern: Pattern, reason: IndeterminateReason },
}

/// The view of [`RewriteResult`].
pub enum RewriteResultV {
    Stuck(PatternV),
    Trivial(PatternV),
    Vacuous(PatternV),
    Finished(AppliedRuleV),
    Branch {
        original: PatternV,
        branches: Seq<AppliedRuleV>,
        remainder: Option<RemainderBranchV>,
        trivial: Seq<TrivialApplicationV>,
    },
    Indeterminate { pattern: PatternV, reason: IndeterminateReasonV },
}

impl View for RewriteResult {
    type V = RewriteResultV;

    open spec fn view(&self) -> RewriteResultV {
        match self {
            RewriteResult::Stuck(first) => RewriteResultV::Stuck(first@),
            RewriteResult::Trivial(first) => RewriteResultV::Trivial(first@),
            RewriteResult::Vacuous(first) => RewriteResultV::Vacuous(first@),
            RewriteResult::Finished(first) => RewriteResultV::Finished(first@),
            RewriteResult::Branch {
                original,
                branches,
                remainder,
                trivial,
            } => RewriteResultV::Branch {
                original: original@,
                branches: deep(branches@),
                remainder: remainder.deep_view(),
                trivial: deep(trivial@),
            },
            RewriteResult::Indeterminate { pattern, reason } => RewriteResultV::Indeterminate {
                pattern: pattern@,
                reason: reason@,
            },
        }
    }
}

impl DeepView for RewriteResult {
    type V = RewriteResultV;

    open spec fn deep_view(&self) -> RewriteResultV {
        self@
    }
}

impl Value for RewriteResult {
    fn duplicate(&self) -> (copy: Self) {
        match self {
            RewriteResult::Stuck(first) => RewriteResult::Stuck(first.duplicate()),
            RewriteResult::Trivial(first) => RewriteResult::Trivial(first.duplicate()),
            RewriteResult::Vacuous(first) => RewriteResult::Vacuous(first.duplicate()),
            RewriteResult::Finished(first) => RewriteResult::Finished(first.duplicate()),
            RewriteResult::Branch {
                original,
                branches,
                remainder,
                trivial,
            } => RewriteResult::Branch {
                original: original.duplicate(),
                branches: branches.duplicate(),
                remainder: remainder.duplicate(),
                trivial: trivial.duplicate(),
            },
            RewriteResult::Indeterminate { pattern, reason } => RewriteResult::Indeterminate {
                pattern: pattern.duplicate(),
                reason: reason.duplicate(),
            },
        }
    }

    fn equals(&self, other: &Self) -> (same: bool) {
        match (self, other) {
            (RewriteResult::Stuck(first), RewriteResult::Stuck(other_first)) => first.equals(
                other_first,
            ),
            (RewriteResult::Trivial(first), RewriteResult::Trivial(other_first)) => first.equals(
                other_first,
            ),
            (RewriteResult::Vacuous(first), RewriteResult::Vacuous(other_first)) => first.equals(
                other_first,
            ),
            (RewriteResult::Finished(first), RewriteResult::Finished(other_first)) => first.equals(
                other_first,
            ),
            (
                RewriteResult::Branch { original, branches, remainder, trivial },
                RewriteResult::Branch {
                    original: other_original,
                    branches: other_branches,
                    remainder: other_remainder,
                    trivial: other_trivial,
                },
            ) => original.equals(other_original)
                && branches.equals(other_branches)
                && remainder.equals(other_remainder)
                && trivial.equals(other_trivial),
            (
                RewriteResult::Indeterminate { pattern, reason },
                RewriteResult::Indeterminate { pattern: other_pattern, reason: other_reason },
            ) => pattern.equals(other_pattern) && reason.equals(other_reason),
            _ => false,
        }
    }
}

/// An application of a rule and the case in which the rule does not apply.
#[derive(Debug, PartialEq, Eq)]
pub struct RuleApplication {
    pub applied: AppliedRule,
    pub remainder: Predicate,
}

/// The view of [`RuleApplication`].
pub struct RuleApplicationV {
    pub applied: AppliedRuleV,
    pub remainder: PredicateV,
}

impl View for RuleApplication {
    type V = RuleApplicationV;

    open spec fn view(&self) -> RuleApplicationV {
        RuleApplicationV {
            applied: self.applied@,
            remainder: self.remainder@,
        }
    }
}

impl DeepView for RuleApplication {
    type V = RuleApplicationV;

    open spec fn deep_view(&self) -> RuleApplicationV {
        self@
    }
}

impl Value for RuleApplication {
    fn duplicate(&self) -> (copy: Self) {
        RuleApplication {
            applied: self.applied.duplicate(),
            remainder: self.remainder.duplicate(),
        }
    }

    fn equals(&self, other: &Self) -> (same: bool) {
        self.applied.equals(&other.applied)
            && self.remainder.equals(&other.remainder)
    }
}

/// What trying one rule gives.
#[derive(Debug, PartialEq, Eq)]
pub enum RuleAttempt {
    NotApplicable,
    /// The rule unified in at least one case, whether or not its result is a value.
    Unified { applied: Vec<RuleApplication>, trivial: Vec<TrivialApplication> },
    Indeterminate(IndeterminateReason),
}

/// The view of [`RuleAttempt`].
pub enum RuleAttemptV {
    NotApplicable,
    Unified { applied: Seq<RuleApplicationV>, trivial: Seq<TrivialApplicationV> },
    Indeterminate(IndeterminateReasonV),
}

impl View for RuleAttempt {
    type V = RuleAttemptV;

    open spec fn view(&self) -> RuleAttemptV {
        match self {
            RuleAttempt::NotApplicable => RuleAttemptV::NotApplicable,
            RuleAttempt::Unified { applied, trivial } => RuleAttemptV::Unified {
                applied: deep(applied@),
                trivial: deep(trivial@),
            },
            RuleAttempt::Indeterminate(first) => RuleAttemptV::Indeterminate(first@),
        }
    }
}

impl DeepView for RuleAttempt {
    type V = RuleAttemptV;

    open spec fn deep_view(&self) -> RuleAttemptV {
        self@
    }
}

impl Value for RuleAttempt {
    fn duplicate(&self) -> (copy: Self) {
        match self {
            RuleAttempt::NotApplicable => RuleAttempt::NotApplicable,
            RuleAttempt::Unified { applied, trivial } => RuleAttempt::Unified {
                applied: applied.duplicate(),
                trivial: trivial.duplicate(),
            },
            RuleAttempt::Indeterminate(first) => RuleAttempt::Indeterminate(first.duplicate()),
        }
    }

    fn equals(&self, other: &Self) -> (same: bool) {
        match (self, other) {
            (RuleAttempt::NotApplicable, RuleAttempt::NotApplicable) => true,
            (
                RuleAttempt::Unified { applied, trivial },
                RuleAttempt::Unified { applied: other_applied, trivial: other_trivial },
            ) => applied.equals(other_applied) && trivial.equals(other_trivial),
            (
                RuleAttempt::Indeterminate(first),
                RuleAttempt::Indeterminate(other_first),
            ) => first.equals(other_first),
            _ => false,
        }
    }
}

/// What trying one outcome of a rule gives.
#[derive(Debug, PartialEq, Eq)]
pub enum RhsAlternativeAttempt {
    Applied(RuleApplication),
    Trivial,
    Indeterminate(IndeterminateReason),
}

/// The view of [`RhsAlternativeAttempt`].
pub enum RhsAlternativeAttemptV {
    Applied(RuleApplicationV),
    Trivial,
    Indeterminate(IndeterminateReasonV),
}

impl View for RhsAlternativeAttempt {
    type V = RhsAlternativeAttemptV;

    open spec fn view(&self) -> RhsAlternativeAttemptV {
        match self {
            RhsAlternativeAttempt::Applied(first) => RhsAlternativeAttemptV::Applied(first@),
            RhsAlternativeAttempt::Trivial => RhsAlternativeAttemptV::Trivial,
            RhsAlternativeAttempt::Indeterminate(first) => RhsAlternativeAttemptV::Indeterminate(
                first@,
            ),
        }
    }
}

impl DeepView for RhsAlternativeAttempt {
    type V = RhsAlternativeAttemptV;

    open spec fn deep_view(&self) -> RhsAlternativeAttemptV {
        self@
    }
}

impl Value for RhsAlternativeAttempt {
    fn duplicate(&self) -> (copy: Self) {
        match self {
            RhsAlternativeAttempt::Applied(first) => RhsAlternativeAttempt::Applied(
                first.duplicate(),
            ),
            RhsAlternativeAttempt::Trivial => RhsAlternativeAttempt::Trivial,
            RhsAlternativeAttempt::Indeterminate(first) => RhsAlternativeAttempt::Indeterminate(
                first.duplicate(),
            ),
        }
    }

    fn equals(&self, other: &Self) -> (same: bool) {
        match (self, other) {
            (RhsAlternativeAttempt::Applied(first), RhsAlternativeAttempt::Applied(other_first)) => first.equals(
                other_first,
            ),
            (RhsAlternativeAttempt::Trivial, RhsAlternativeAttempt::Trivial) => true,
            (
                RhsAlternativeAttempt::Indeterminate(first),
                RhsAlternativeAttempt::Indeterminate(other_first),
            ) => first.equals(other_first),
            _ => false,
        }
    }
}

/// A match of a rule that is known in part.
#[derive(Debug, PartialEq, Eq)]
pub struct PartialRuleMatch {
    pub substitution: Substitution,
    pub conditions: Vec<Predicate>,
    pub remainder: Vec<(Term, Term)>,
}

/// The view of [`PartialRuleMatch`].
pub struct PartialRuleMatchV {
    pub substitution: SubstitutionV,
    pub conditions: Seq<PredicateV>,
    pub remainder: Seq<(TermV, TermV)>,
}

impl View for PartialRuleMatch {
    type V = PartialRuleMatchV;

    open spec fn view(&self) -> PartialRuleMatchV {
        PartialRuleMatchV {
            substitution: self.substitution@,
            conditions: deep(self.conditions@),
            remainder: deep(self.remainder@),
        }
    }
}

impl DeepView for PartialRuleMatch {
    type V = PartialRuleMatchV;

    open spec fn deep_view(&self) -> PartialRuleMatchV {
        self@
    }
}

impl Value for PartialRuleMatch {
    fn duplicate(&self) -> (copy: Self) {
        PartialRuleMatch {
            substitution: self.substitution.duplicate(),
            conditions: self.conditions.duplicate(),
            remainder: self.remainder.duplicate(),
        }
    }

    fn equals(&self, other: &Self) -> (same: bool) {
        self.substitution.equals(&other.substitution)
            && self.conditions.equals(&other.conditions)
            && self.remainder.equals(&other.remainder)
    }
}

} // verus!
