//! What the rewriting logic takes from the rest of a backend: unification, definedness and
//! builtin functions.

use vstd::prelude::*;
use crate::diagnostic::{BackendDiagnostic, BackendDiagnosticV};
use crate::construct::evaluated;
use crate::model::{deep, group_deep, Value};
use crate::predicate::{lemma_predicate_view, Predicate, PredicateV};
use crate::substitution::{Substitution, SubstitutionV};
use crate::term::{Term, TermV, Variable, VariableV};

verus! {

broadcast use group_deep;

/// The view of a result.
pub open spec fn result_view<A: DeepView, B: DeepView>(result: Result<A, B>) -> Result<A::V, B::V> {
    match result {
        Ok(value) => Ok(value.deep_view()),
        Err(error) => Err(error.deep_view()),
    }
}

/// A copy of a result.
pub fn duplicate_result<A: Value, B: Value>(result: &Result<A, B>) -> (copy: Result<A, B>)
    ensures
        result_view(copy) == result_view(*result),
{
    match result {
        Ok(value) => Ok(value.duplicate()),
        Err(error) => Err(error.duplicate()),
    }
}

/// Whether two results are equal.
pub fn equal_results<A: Value, B: Value>(left: &Result<A, B>, right: &Result<A, B>) -> (same: bool)
    ensures
        same == (result_view(*left) == result_view(*right)),
{
    match (left, right) {
        (Ok(left), Ok(right)) => left.equals(right),
        (Err(left), Err(right)) => left.equals(right),
        _ => false,
    }
}

/// Why a builtin function cannot be evaluated.
#[derive(Debug, PartialEq, Eq)]
pub enum UnsupportedHookReason {
    NotImplemented,
    ArgumentOutOfRange { detail: String },
}

/// The view of [`UnsupportedHookReason`].
pub enum UnsupportedHookReasonV {
    NotImplemented,
    ArgumentOutOfRange { detail: Seq<char> },
}

impl View for UnsupportedHookReason {
    type V = UnsupportedHookReasonV;

    open spec fn view(&self) -> UnsupportedHookReasonV {
        match self {
            UnsupportedHookReason::NotImplemented => UnsupportedHookReasonV::NotImplemented,
            UnsupportedHookReason::ArgumentOutOfRange {
                detail,
            } => UnsupportedHookReasonV::ArgumentOutOfRange { detail: detail@ },
        }
    }
}

impl DeepView for UnsupportedHookReason {
    type V = UnsupportedHookReasonV;

    open spec fn deep_view(&self) -> UnsupportedHookReasonV {
        self@
    }
}

impl Value for UnsupportedHookReason {
    fn duplicate(&self) -> (copy: Self) {
        match self {
            UnsupportedHookReason::NotImplemented => UnsupportedHookReason::NotImplemented,
            UnsupportedHookReason::ArgumentOutOfRange {
                detail,
            } => UnsupportedHookReason::ArgumentOutOfRange { detail: detail.clone() },
        }
    }

    fn equals(&self, other: &Self) -> (same: bool) {
        match (self, other) {
            (UnsupportedHookReason::NotImplemented, UnsupportedHookReason::NotImplemented) => true,
            (
                UnsupportedHookReason::ArgumentOutOfRange { detail },
                UnsupportedHookReason::ArgumentOutOfRange { detail: other_detail },
            ) => *detail == *other_detail,
            _ => false,
        }
    }
}

/// What a builtin function does besides returning a value.
#[derive(Debug, PartialEq, Eq)]
pub enum BuiltinEffect {
    /// A message for the user.
    UserLog(String),
}

/// The view of [`BuiltinEffect`].
pub enum BuiltinEffectV {
    UserLog(Seq<char>),
}

impl View for BuiltinEffect {
    type V = BuiltinEffectV;

    open spec fn view(&self) -> BuiltinEffectV {
        match self {
            BuiltinEffect::UserLog(first) => BuiltinEffectV::UserLog(first@),
        }
    }
}

impl DeepView for BuiltinEffect {
    type V = BuiltinEffectV;

    open spec fn deep_view(&self) -> BuiltinEffectV {
        self@
    }
}

impl Value for BuiltinEffect {
    fn duplicate(&self) -> (copy: Self) {
        match self {
            BuiltinEffect::UserLog(first) => BuiltinEffect::UserLog(first.clone()),
        }
    }

    fn equals(&self, other: &Self) -> (same: bool) {
        match (self, other) {
            (
                BuiltinEffect::UserLog(first),
                BuiltinEffect::UserLog(other_first),
            ) => *first == *other_first,
        }
    }
}

/// An error in the evaluation of a builtin function.
#[derive(Debug, PartialEq, Eq)]
pub struct BuiltinError {
    pub message: String,
}

/// The view of [`BuiltinError`].
pub struct BuiltinErrorV {
    pub message: Seq<char>,
}

impl View for BuiltinError {
    type V = BuiltinErrorV;

    open spec fn view(&self) -> BuiltinErrorV {
        BuiltinErrorV {
            message: self.message@,
        }
    }
}

impl DeepView for BuiltinError {
    type V = BuiltinErrorV;

    open spec fn deep_view(&self) -> BuiltinErrorV {
        self@
    }
}

impl Value for BuiltinError {
    fn duplicate(&self) -> (copy: Self) {
        BuiltinError {
            message: self.message.clone(),
        }
    }

    fn equals(&self, other: &Self) -> (same: bool) {
        self.message == other.message
    }
}

/// The outcome of a builtin function.
#[derive(Debug, PartialEq, Eq)]
pub enum BuiltinResult {
    NotApplicable,
    Unsupported(UnsupportedHookReason),
    Value(Term),
    Bottom,
    Effect(BuiltinEffect),
}

/// The view of [`BuiltinResult`].
pub enum BuiltinResultV {
    NotApplicable,
    Unsupported(UnsupportedHookReasonV),
    Value(TermV),
    Bottom,
    Effect(BuiltinEffectV),
}

impl View for BuiltinResult {
    type V = BuiltinResultV;

    open spec fn view(&self) -> BuiltinResultV {
        match self {
            BuiltinResult::NotApplicable => BuiltinResultV::NotApplicable,
            BuiltinResult::Unsupported(first) => BuiltinResultV::Unsupported(first@),
            BuiltinResult::Value(first) => BuiltinResultV::Value(first@),
            BuiltinResult::Bottom => BuiltinResultV::Bottom,
            BuiltinResult::Effect(first) => BuiltinResultV::Effect(first@),
        }
    }
}

impl DeepView for BuiltinResult {
    type V = BuiltinResultV;

    open spec fn deep_view(&self) -> BuiltinResultV {
        self@
    }
}

impl Value for BuiltinResult {
    fn duplicate(&self) -> (copy: Self) {
        match self {
            BuiltinResult::NotApplicable => BuiltinResult::NotApplicable,
            BuiltinResult::Unsupported(first) => BuiltinResult::Unsupported(first.duplicate()),
            BuiltinResult::Value(first) => BuiltinResult::Value(first.duplicate()),
            BuiltinResult::Bottom => BuiltinResult::Bottom,
            BuiltinResult::Effect(first) => BuiltinResult::Effect(first.duplicate()),
        }
    }

    fn equals(&self, other: &Self) -> (same: bool) {
        match (self, other) {
            (BuiltinResult::NotApplicable, BuiltinResult::NotApplicable) => true,
            (
                BuiltinResult::Unsupported(first),
                BuiltinResult::Unsupported(other_first),
            ) => first.equals(other_first),
            (BuiltinResult::Value(first), BuiltinResult::Value(other_first)) => first.equals(
                other_first,
            ),
            (BuiltinResult::Bottom, BuiltinResult::Bottom) => true,
            (BuiltinResult::Effect(first), BuiltinResult::Effect(other_first)) => first.equals(
                other_first,
            ),
            _ => false,
        }
    }
}

/// Why two terms have no common instance.
#[derive(Debug, PartialEq, Eq)]
pub enum UnificationFailure {
    VariableRecursion(Variable, Term),
    DifferentSorts(Term, Term),
    DifferentValues(Term, Term),
    DifferentSymbols(Term, Term),
}

/// The view of [`UnificationFailure`].
pub enum UnificationFailureV {
    VariableRecursion(VariableV, TermV),
    DifferentSorts(TermV, TermV),
    DifferentValues(TermV, TermV),
    DifferentSymbols(TermV, TermV),
}

impl View for UnificationFailure {
    type V = UnificationFailureV;

    open spec fn view(&self) -> UnificationFailureV {
        match self {
            UnificationFailure::VariableRecursion(first, second) => UnificationFailureV::VariableRecursion(
                first@,
                second@,
            ),
            UnificationFailure::DifferentSorts(first, second) => UnificationFailureV::DifferentSorts(
                first@,
                second@,
            ),
            UnificationFailure::DifferentValues(first, second) => UnificationFailureV::DifferentValues(
                first@,
                second@,
            ),
            UnificationFailure::DifferentSymbols(first, second) => UnificationFailureV::DifferentSymbols(
                first@,
                second@,
            ),
        }
    }
}

impl DeepView for UnificationFailure {
    type V = UnificationFailureV;

    open spec fn deep_view(&self) -> UnificationFailureV {
        self@
    }
}

impl Value for UnificationFailure {
    fn duplicate(&self) -> (copy: Self) {
        match self {
            UnificationFailure::VariableRecursion(first, second) => UnificationFailure::VariableRecursion(
                first.duplicate(),
                second.duplicate(),
            ),
            UnificationFailure::DifferentSorts(first, second) => UnificationFailure::DifferentSorts(
                first.duplicate(),
                second.duplicate(),
            ),
            UnificationFailure::DifferentValues(first, second) => UnificationFailure::DifferentValues(
                first.duplicate(),
                second.duplicate(),
            ),
            UnificationFailure::DifferentSymbols(first, second) => UnificationFailure::DifferentSymbols(
                first.duplicate(),
                second.duplicate(),
            ),
        }
    }

    fn equals(&self, other: &Self) -> (same: bool) {
        match (self, other) {
            (
                UnificationFailure::VariableRecursion(first, second),
                UnificationFailure::VariableRecursion(other_first, other_second),
            ) => first.equals(other_first) && second.equals(other_second),
            (
                UnificationFailure::DifferentSorts(first, second),
                UnificationFailure::DifferentSorts(other_first, other_second),
            ) => first.equals(other_first) && second.equals(other_second),
            (
                UnificationFailure::DifferentValues(first, second),
                UnificationFailure::DifferentValues(other_first, other_second),
            ) => first.equals(other_first) && second.equals(other_second),
            (
                UnificationFailure::DifferentSymbols(first, second),
                UnificationFailure::DifferentSymbols(other_first, other_second),
            ) => first.equals(other_first) && second.equals(other_second),
            _ => false,
        }
    }
}

/// The outcome of a unification problem.
#[derive(Debug, PartialEq, Eq)]
pub enum UnificationResult {
    /// Every pair is solved by the substitution, where the constraints hold.
    Unified { substitution: Substitution, constraints: Vec<Predicate> },
    /// The pairs have no common instance.
    Bottom(UnificationFailure),
    /// The pairs of the remainder are left unsolved.
    Unsupported {
        substitution: Substitution,
        constraints: Vec<Predicate>,
        remainder: Vec<(Term, Term)>,
    },
}

/// The view of [`UnificationResult`].
pub enum UnificationResultV {
    Unified { substitution: SubstitutionV, constraints: Seq<PredicateV> },
    Bottom(UnificationFailureV),
    Unsupported {
        substitution: SubstitutionV,
        constraints: Seq<PredicateV>,
        remainder: Seq<(TermV, TermV)>,
    },
}

impl View for UnificationResult {
    type V = UnificationResultV;

    open spec fn view(&self) -> UnificationResultV {
        match self {
            UnificationResult::Unified {
                substitution,
                constraints,
            } => UnificationResultV::Unified {
                substitution: substitution@,
                constraints: deep(constraints@),
            },
            UnificationResult::Bottom(first) => UnificationResultV::Bottom(first@),
            UnificationResult::Unsupported {
                substitution,
                constraints,
                remainder,
            } => UnificationResultV::Unsupported {
                substitution: substitution@,
                constraints: deep(constraints@),
                remainder: deep(remainder@),
            },
        }
    }
}

impl DeepView for UnificationResult {
    type V = UnificationResultV;

    open spec fn deep_view(&self) -> UnificationResultV {
        self@
    }
}

impl Value for UnificationResult {
    fn duplicate(&self) -> (copy: Self) {
        match self {
            UnificationResult::Unified { substitution, constraints } => UnificationResult::Unified {
                substitution: substitution.duplicate(),
                constraints: constraints.duplicate(),
            },
            UnificationResult::Bottom(first) => UnificationResult::Bottom(first.duplicate()),
            UnificationResult::Unsupported {
                substitution,
                constraints,
                remainder,
            } => UnificationResult::Unsupported {
                substitution: substitution.duplicate(),
                constraints: constraints.duplicate(),
                remainder: remainder.duplicate(),
            },
        }
    }

    fn equals(&self, other: &Self) -> (same: bool) {
        match (self, other) {
            (
                UnificationResult::Unified { substitution, constraints },
                UnificationResult::Unified {
                    substitution: other_substitution,
                    constraints: other_constraints,
                },
            ) => substitution.equals(other_substitution) && constraints.equals(other_constraints),
            (
                UnificationResult::Bottom(first),
                UnificationResult::Bottom(other_first),
            ) => first.equals(other_first),
            (
                UnificationResult::Unsupported { substitution, constraints, remainder },
                UnificationResult::Unsupported {
                    substitution: other_substitution,
                    constraints: other_constraints,
                    remainder: other_remainder,
                },
            ) => substitution.equals(other_substitution)
                && constraints.equals(other_constraints)
                && remainder.equals(other_remainder),
            _ => false,
        }
    }
}

/// The operations on terms that matching, simplification and rewriting build on.
///
/// Each of them that answers is a function of its arguments: asked the same question, it gives the
/// same answer.
pub trait Kernel {
    open spec fn unified(
        &self,
        substitution: SubstitutionV,
        pairs: Seq<(TermV, TermV)>,
    ) -> UnificationResultV {
        arbitrary()
    }

    /// Solve `pairs` under `substitution`.
    fn unify(&self, substitution: Substitution, pairs: Vec<(Term, Term)>) -> (result:
        UnificationResult)
        ensures
            result@ == self.unified(substitution@, deep(pairs@)),
    ;

    open spec fn ceil(&self, term: TermV) -> Seq<PredicateV> {
        arbitrary()
    }

    /// The conditions under which `term` is defined.
    fn ceil_term(&self, term: &Term) -> (result: Vec<Predicate>)
        ensures
            deep(result@) == self.ceil(term@),
    ;

    open spec fn evaluation(&self, term: TermV) -> Result<BuiltinResultV, BuiltinErrorV> {
        arbitrary()
    }

    /// Evaluate an application of a builtin function.
    fn evaluate(&self, term: &Term) -> (result: Result<BuiltinResult, BuiltinError>)
        ensures
            result_view(result) == self.evaluation(term@),
    ;

    open spec fn hook_result(&self, hook: Seq<char>, arguments: Seq<TermV>) -> Result<
        BuiltinResultV,
        BuiltinErrorV,
    > {
        arbitrary()
    }

    /// Evaluate the builtin function `hook` on `arguments`.
    fn evaluate_hook(&self, hook: &str, arguments: Vec<Term>) -> (result: Result<
        BuiltinResult,
        BuiltinError,
    >)
        ensures
            result_view(result) == self.hook_result(hook@, deep(arguments@)),
    ;

    /// What the kernel promises of a diagnostic that it has heard of.
    open spec fn heard(&self, diagnostic: BackendDiagnosticV) -> bool {
        arbitrary()
    }

    /// Hear of something that was left undone. No result depends on it.
    fn emit(&self, diagnostic: BackendDiagnostic)
        ensures
            self.heard(diagnostic@),
    ;
}

/// A kernel without theories: it solves no pair, evaluates no builtin function, and asks for the
/// definedness of a term as it stands.
#[derive(Clone, Copy, Debug, PartialEq, Eq)]
pub struct EmptyKernel;

impl Kernel for EmptyKernel {
    open spec fn unified(
        &self,
        substitution: SubstitutionV,
        pairs: Seq<(TermV, TermV)>,
    ) -> UnificationResultV {
        UnificationResultV::Unsupported { substitution, constraints: Seq::empty(), remainder: pairs }
    }

    fn unify(&self, substitution: Substitution, pairs: Vec<(Term, Term)>) -> (result:
        UnificationResult) {
        UnificationResult::Unsupported { substitution, constraints: Vec::new(), remainder: pairs }
    }

    open spec fn ceil(&self, term: TermV) -> Seq<PredicateV> {
        if evaluated(term) {
            Seq::empty()
        } else {
            seq![PredicateV::Ceil(term)]
        }
    }

    fn ceil_term(&self, term: &Term) -> (result: Vec<Predicate>) {
        let mut result: Vec<Predicate> = Vec::new();
        if !term.is_evaluated() {
            let predicate = Predicate::Ceil(term.duplicate());
            proof {
                lemma_predicate_view(predicate);
            }
            result.push(predicate);
            assert(deep(result@) =~= self.ceil(term@));
        }
        result
    }

    open spec fn evaluation(&self, term: TermV) -> Result<BuiltinResultV, BuiltinErrorV> {
        Ok(BuiltinResultV::NotApplicable)
    }

    fn evaluate(&self, term: &Term) -> (result: Result<BuiltinResult, BuiltinError>) {
        Ok(BuiltinResult::NotApplicable)
    }

    open spec fn hook_result(&self, hook: Seq<char>, arguments: Seq<TermV>) -> Result<
        BuiltinResultV,
        BuiltinErrorV,
    > {
        Ok(BuiltinResultV::NotApplicable)
    }

    fn evaluate_hook(&self, hook: &str, arguments: Vec<Term>) -> (result: Result<
        BuiltinResult,
        BuiltinError,
    >) {
        Ok(BuiltinResult::NotApplicable)
    }

    open spec fn heard(&self, diagnostic: BackendDiagnosticV) -> bool {
        true
    }

    fn emit(&self, diagnostic: BackendDiagnostic) {
    }
}

} // verus!
