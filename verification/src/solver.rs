//! The interface to SMT solvers.

use vstd::prelude::*;
use crate::kernel::result_view;
use crate::model::{deep, group_deep, Value};
use crate::predicate::{Predicate, PredicateV};
use crate::substitution::{Substitution, SubstitutionV};

verus! {

broadcast use group_deep;

/// Why a solver gave no answer.
#[derive(Debug, PartialEq, Eq)]
pub enum SmtError {
    /// There is no solver.
    Unavailable,
    /// The solver could not decide the question.
    Unknown(String),
    /// What is known is contradictory.
    InconsistentGroundTruth,
    /// The solver failed.
    Failure(String),
}

/// The view of [`SmtError`].
pub enum SmtErrorV {
    Unavailable,
    Unknown(Seq<char>),
    InconsistentGroundTruth,
    Failure(Seq<char>),
}

impl View for SmtError {
    type V = SmtErrorV;

    open spec fn view(&self) -> SmtErrorV {
        match self {
            SmtError::Unavailable => SmtErrorV::Unavailable,
            SmtError::Unknown(first) => SmtErrorV::Unknown(first@),
            SmtError::InconsistentGroundTruth => SmtErrorV::InconsistentGroundTruth,
            SmtError::Failure(first) => SmtErrorV::Failure(first@),
        }
    }
}

impl DeepView for SmtError {
    type V = SmtErrorV;

    open spec fn deep_view(&self) -> SmtErrorV {
        self@
    }
}

impl Value for SmtError {
    fn duplicate(&self) -> (copy: Self) {
        match self {
            SmtError::Unavailable => SmtError::Unavailable,
            SmtError::Unknown(first) => SmtError::Unknown(first.clone()),
            SmtError::InconsistentGroundTruth => SmtError::InconsistentGroundTruth,
            SmtError::Failure(first) => SmtError::Failure(first.clone()),
        }
    }

    fn equals(&self, other: &Self) -> (same: bool) {
        match (self, other) {
            (SmtError::Unavailable, SmtError::Unavailable) => true,
            (SmtError::Unknown(first), SmtError::Unknown(other_first)) => *first == *other_first,
            (SmtError::InconsistentGroundTruth, SmtError::InconsistentGroundTruth) => true,
            (SmtError::Failure(first), SmtError::Failure(other_first)) => *first == *other_first,
            _ => false,
        }
    }
}

/// Whether a conjunction of predicates has a model.
#[derive(Debug, PartialEq, Eq)]
pub enum Satisfiability {
    Sat,
    Unsat,
    Unknown(String),
}

/// The view of [`Satisfiability`].
pub enum SatisfiabilityV {
    Sat,
    Unsat,
    Unknown(Seq<char>),
}

impl View for Satisfiability {
    type V = SatisfiabilityV;

    open spec fn view(&self) -> SatisfiabilityV {
        match self {
            Satisfiability::Sat => SatisfiabilityV::Sat,
            Satisfiability::Unsat => SatisfiabilityV::Unsat,
            Satisfiability::Unknown(first) => SatisfiabilityV::Unknown(first@),
        }
    }
}

impl DeepView for Satisfiability {
    type V = SatisfiabilityV;

    open spec fn deep_view(&self) -> SatisfiabilityV {
        self@
    }
}

impl Value for Satisfiability {
    fn duplicate(&self) -> (copy: Self) {
        match self {
            Satisfiability::Sat => Satisfiability::Sat,
            Satisfiability::Unsat => Satisfiability::Unsat,
            Satisfiability::Unknown(first) => Satisfiability::Unknown(first.clone()),
        }
    }

    fn equals(&self, other: &Self) -> (same: bool) {
        match (self, other) {
            (Satisfiability::Sat, Satisfiability::Sat) => true,
            (Satisfiability::Unsat, Satisfiability::Unsat) => true,
            (
                Satisfiability::Unknown(first),
                Satisfiability::Unknown(other_first),
            ) => *first == *other_first,
            _ => false,
        }
    }
}

/// Whether what is known decides a conjunction of predicates.
#[derive(Debug, PartialEq, Eq)]
pub enum Validity {
    Valid,
    Invalid,
    Indeterminate,
    InconsistentGroundTruth,
    Unknown(String),
}

/// The view of [`Validity`].
pub enum ValidityV {
    Valid,
    Invalid,
    Indeterminate,
    InconsistentGroundTruth,
    Unknown(Seq<char>),
}

impl View for Validity {
    type V = ValidityV;

    open spec fn view(&self) -> ValidityV {
        match self {
            Validity::Valid => ValidityV::Valid,
            Validity::Invalid => ValidityV::Invalid,
            Validity::Indeterminate => ValidityV::Indeterminate,
            Validity::InconsistentGroundTruth => ValidityV::InconsistentGroundTruth,
            Validity::Unknown(first) => ValidityV::Unknown(first@),
        }
    }
}

impl DeepView for Validity {
    type V = ValidityV;

    open spec fn deep_view(&self) -> ValidityV {
        self@
    }
}

impl Value for Validity {
    fn duplicate(&self) -> (copy: Self) {
        match self {
            Validity::Valid => Validity::Valid,
            Validity::Invalid => Validity::Invalid,
            Validity::Indeterminate => Validity::Indeterminate,
            Validity::InconsistentGroundTruth => Validity::InconsistentGroundTruth,
            Validity::Unknown(first) => Validity::Unknown(first.clone()),
        }
    }

    fn equals(&self, other: &Self) -> (same: bool) {
        match (self, other) {
            (Validity::Valid, Validity::Valid) => true,
            (Validity::Invalid, Validity::Invalid) => true,
            (Validity::Indeterminate, Validity::Indeterminate) => true,
            (Validity::InconsistentGroundTruth, Validity::InconsistentGroundTruth) => true,
            (Validity::Unknown(first), Validity::Unknown(other_first)) => *first == *other_first,
            _ => false,
        }
    }
}

/// A decision procedure for predicates.
///
/// A solver is consistent with itself: asked the same question, it gives the same answer.
pub trait SmtSolver {
    open spec fn satisfiability(&self, predicates: Seq<PredicateV>, substitution: SubstitutionV) -> Result<
        SatisfiabilityV,
        SmtErrorV,
    > {
        arbitrary()
    }

    /// Whether the predicates and the equalities of the substitution have a model.
    fn is_sat(&self, predicates: &[Predicate], substitution: &Substitution) -> (result: Result<
        Satisfiability,
        SmtError,
    >)
        ensures
            result_view(result) == self.satisfiability(deep(predicates@), substitution@),
    ;

    open spec fn validity(
        &self,
        known: Seq<PredicateV>,
        substitution: SubstitutionV,
        checked: Seq<PredicateV>,
    ) -> Result<ValidityV, SmtErrorV> {
        arbitrary()
    }

    /// Whether the known predicates and the equalities of the substitution decide the conjunction
    /// of the checked predicates.
    fn check_predicates(
        &self,
        known: &[Predicate],
        substitution: &Substitution,
        checked: &[Predicate],
    ) -> (result: Result<Validity, SmtError>)
        ensures
            result_view(result) == self.validity(deep(known@), substitution@, deep(checked@)),
    ;
}

/// The absence of a solver.
#[derive(Clone, Copy, Debug, PartialEq, Eq)]
pub struct NoSolver;

impl SmtSolver for NoSolver {
    open spec fn satisfiability(
        &self,
        predicates: Seq<PredicateV>,
        substitution: SubstitutionV,
    ) -> Result<SatisfiabilityV, SmtErrorV> {
        Err(SmtErrorV::Unavailable)
    }

    fn is_sat(&self, predicates: &[Predicate], substitution: &Substitution) -> (result: Result<
        Satisfiability,
        SmtError,
    >) {
        Err(SmtError::Unavailable)
    }

    open spec fn validity(
        &self,
        known: Seq<PredicateV>,
        substitution: SubstitutionV,
        checked: Seq<PredicateV>,
    ) -> Result<ValidityV, SmtErrorV> {
        Err(SmtErrorV::Unavailable)
    }

    fn check_predicates(
        &self,
        known: &[Predicate],
        substitution: &Substitution,
        checked: &[Predicate],
    ) -> (result: Result<Validity, SmtError>) {
        Err(SmtError::Unavailable)
    }
}

} // verus!
