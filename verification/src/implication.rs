//! Implications between patterns.

use vstd::prelude::*;
use crate::definition::BackendDefinition;
use crate::kernel::{result_view, Kernel};
use crate::model::{deep, group_deep, Value};
use crate::pattern::{Pattern, PatternV};
use crate::predicate::{Predicate, PredicateV};
use crate::simplify_types::{SimplificationError, SimplificationErrorV, SimplificationOptions};
use crate::solver::SmtSolver;
use crate::substitution::{Substitution, SubstitutionV};
use crate::term::{Variable, VariableV};

verus! {

broadcast use group_deep;

/// Whether an implication holds.
#[derive(Clone, Copy, Debug, PartialEq, Eq, Structural)]
pub enum ImplicationStatus {
    Valid,
    Invalid,
    Indeterminate,
}

/// Why an implication does not hold.
#[derive(Clone, Copy, Debug, PartialEq, Eq, Structural)]
pub enum ImplicationFailure {
    /// The terms do not match.
    Terms,
    /// The terms match, but the condition of the consequent does not hold.
    ConsequentCondition,
}

impl DeepView for ImplicationFailure {
    type V = ImplicationFailure;

    open spec fn deep_view(&self) -> ImplicationFailure {
        *self
    }
}

impl Value for ImplicationFailure {
    fn duplicate(&self) -> (copy: Self) {
        *self
    }

    fn equals(&self, other: &Self) -> (same: bool) {
        *self == *other
    }
}

/// The condition under which an implication holds, and the values of existential variables.
#[derive(Debug, PartialEq, Eq)]
pub struct ImplicationCondition {
    pub predicates: Vec<Predicate>,
    pub substitution: Substitution,
    pub witnesses: Substitution,
}

/// The view of [`ImplicationCondition`].
pub struct ImplicationConditionV {
    pub predicates: Seq<PredicateV>,
    pub substitution: SubstitutionV,
    pub witnesses: SubstitutionV,
}

impl View for ImplicationCondition {
    type V = ImplicationConditionV;

    open spec fn view(&self) -> ImplicationConditionV {
        ImplicationConditionV {
            predicates: deep(self.predicates@),
            substitution: self.substitution@,
            witnesses: self.witnesses@,
        }
    }
}

impl DeepView for ImplicationCondition {
    type V = ImplicationConditionV;

    open spec fn deep_view(&self) -> ImplicationConditionV {
        self@
    }
}

impl Value for ImplicationCondition {
    fn duplicate(&self) -> (copy: Self) {
        ImplicationCondition {
            predicates: self.predicates.duplicate(),
            substitution: self.substitution.duplicate(),
            witnesses: self.witnesses.duplicate(),
        }
    }

    fn equals(&self, other: &Self) -> (same: bool) {
        self.predicates.equals(&other.predicates)
            && self.substitution.equals(&other.substitution)
            && self.witnesses.equals(&other.witnesses)
    }
}

/// What is known of an implication.
#[derive(Debug, PartialEq, Eq)]
pub struct Implication {
    pub status: ImplicationStatus,
    /// Whether the antecedent has no instance.
    pub vacuous: bool,
    pub condition: Option<ImplicationCondition>,
    pub failure: Option<ImplicationFailure>,
}

/// The view of [`Implication`].
pub struct ImplicationV {
    pub status: ImplicationStatus,
    pub vacuous: bool,
    pub condition: Option<ImplicationConditionV>,
    pub failure: Option<ImplicationFailure>,
}

impl View for Implication {
    type V = ImplicationV;

    open spec fn view(&self) -> ImplicationV {
        ImplicationV {
            status: self.status,
            vacuous: self.vacuous,
            condition: self.condition.deep_view(),
            failure: self.failure.deep_view(),
        }
    }
}

impl DeepView for Implication {
    type V = ImplicationV;

    open spec fn deep_view(&self) -> ImplicationV {
        self@
    }
}

impl Value for Implication {
    fn duplicate(&self) -> (copy: Self) {
        Implication {
            status: self.status,
            vacuous: self.vacuous,
            condition: self.condition.duplicate(),
            failure: self.failure.duplicate(),
        }
    }

    fn equals(&self, other: &Self) -> (same: bool) {
        self.status == other.status
            && self.vacuous == other.vacuous
            && self.condition.equals(&other.condition)
            && self.failure.equals(&other.failure)
    }
}

/// Why an implication cannot be checked.
#[derive(Debug, PartialEq, Eq)]
pub enum ImplicationError {
    Simplification(SimplificationError),
}

/// The view of [`ImplicationError`].
pub enum ImplicationErrorV {
    Simplification(SimplificationErrorV),
}

impl View for ImplicationError {
    type V = ImplicationErrorV;

    open spec fn view(&self) -> ImplicationErrorV {
        match self {
            ImplicationError::Simplification(first) => ImplicationErrorV::Simplification(first@),
        }
    }
}

impl DeepView for ImplicationError {
    type V = ImplicationErrorV;

    open spec fn deep_view(&self) -> ImplicationErrorV {
        self@
    }
}

impl Value for ImplicationError {
    fn duplicate(&self) -> (copy: Self) {
        match self {
            ImplicationError::Simplification(first) => ImplicationError::Simplification(
                first.duplicate(),
            ),
        }
    }

    fn equals(&self, other: &Self) -> (same: bool) {
        match (self, other) {
            (
                ImplicationError::Simplification(first),
                ImplicationError::Simplification(other_first),
            ) => first.equals(other_first),
        }
    }
}

/// A check of implications.
///
/// It is a function of its arguments: the same patterns give the same answer.
pub trait ImplicationChecker<K: Kernel, S: SmtSolver> {
    open spec fn implication(
        &self,
        definition: &BackendDefinition<K>,
        antecedent: PatternV,
        consequents: Seq<PatternV>,
        existentials: Seq<VariableV>,
        options: SimplificationOptions,
        solver: &S,
    ) -> Result<ImplicationV, ImplicationErrorV> {
        arbitrary()
    }

    /// Whether every instance of the antecedent is one of a consequent, for some values of the
    /// existential variables.
    fn check_disjunctive_implication_with_existentials(
        &self,
        definition: &BackendDefinition<K>,
        antecedent: &Pattern,
        consequents: &Vec<Pattern>,
        existentials: &Vec<Variable>,
        options: SimplificationOptions,
        solver: &S,
    ) -> (result: Result<Implication, ImplicationError>)
        ensures
            result_view(result) == self.implication(
                definition,
                antecedent@,
                deep(consequents@),
                deep(existentials@),
                options,
                solver,
            ),
    ;
}

/// A check that decides nothing.
#[derive(Clone, Copy, Debug, PartialEq, Eq)]
pub struct NoImplications;

impl<K: Kernel, S: SmtSolver> ImplicationChecker<K, S> for NoImplications {
    open spec fn implication(
        &self,
        definition: &BackendDefinition<K>,
        antecedent: PatternV,
        consequents: Seq<PatternV>,
        existentials: Seq<VariableV>,
        options: SimplificationOptions,
        solver: &S,
    ) -> Result<ImplicationV, ImplicationErrorV> {
        Ok(
            ImplicationV {
                status: ImplicationStatus::Indeterminate,
                vacuous: false,
                condition: None,
                failure: None,
            },
        )
    }

    fn check_disjunctive_implication_with_existentials(
        &self,
        definition: &BackendDefinition<K>,
        antecedent: &Pattern,
        consequents: &Vec<Pattern>,
        existentials: &Vec<Variable>,
        options: SimplificationOptions,
        solver: &S,
    ) -> (result: Result<Implication, ImplicationError>) {
        Ok(
            Implication {
                status: ImplicationStatus::Indeterminate,
                vacuous: false,
                condition: None,
                failure: None,
            },
        )
    }
}

} // verus!
