//! What a simplification tells beside its result.

use vstd::prelude::*;
use crate::kernel::{result_view, Kernel, UnsupportedHookReason, UnsupportedHookReasonV};
use crate::model::{deep, group_deep, Value};
use crate::predicate::{Predicate, PredicateV};
use crate::simplify_parts::{all_constructor_like, are_constructor_like, hooked};
use crate::simplify_types::{
    BudgetExhaustion, BudgetSubject, ConditionIndeterminacy, ConditionIndeterminacyV,
};
use crate::solver::{SmtError, SmtErrorV, Validity, ValidityV};
use crate::term::{lemma_term_view, Term, TermV};

verus! {

broadcast use group_deep;

/// What was left undone, and why. Results do not depend on whether anyone listens.
#[derive(Debug, PartialEq, Eq)]
#[allow(inconsistent_fields)]
pub enum BackendDiagnostic {
    /// The iterations were used up, and a partial result was kept.
    SimplificationBudgetExhausted { limit: usize, subject: BudgetSubject },
    /// The solver could not decide the condition of a rule.
    UndecidedCondition {
        rule_id: String,
        reason: ConditionIndeterminacy,
        predicates: Vec<Predicate>,
    },
    /// The solver could not decide a predicate.
    UndecidedPredicate { predicate: Predicate, reason: ConditionIndeterminacy },
    /// A builtin function was not evaluated.
    UnsupportedHookUnevaluated { hook: String, reason: UnsupportedHookReason },
}

/// The view of a [`BackendDiagnostic`].
#[allow(inconsistent_fields)]
pub enum BackendDiagnosticV {
    SimplificationBudgetExhausted { limit: usize, subject: BudgetSubject },
    UndecidedCondition {
        rule_id: Seq<char>,
        reason: ConditionIndeterminacyV,
        predicates: Seq<PredicateV>,
    },
    UndecidedPredicate { predicate: PredicateV, reason: ConditionIndeterminacyV },
    UnsupportedHookUnevaluated { hook: Seq<char>, reason: UnsupportedHookReasonV },
}

impl View for BackendDiagnostic {
    type V = BackendDiagnosticV;

    open spec fn view(&self) -> BackendDiagnosticV {
        match self {
            BackendDiagnostic::SimplificationBudgetExhausted {
                limit,
                subject,
            } => BackendDiagnosticV::SimplificationBudgetExhausted {
                limit: *limit,
                subject: *subject,
            },
            BackendDiagnostic::UndecidedCondition {
                rule_id,
                reason,
                predicates,
            } => BackendDiagnosticV::UndecidedCondition {
                rule_id: rule_id@,
                reason: reason@,
                predicates: deep(predicates@),
            },
            BackendDiagnostic::UndecidedPredicate {
                predicate,
                reason,
            } => BackendDiagnosticV::UndecidedPredicate {
                predicate: predicate@,
                reason: reason@,
            },
            BackendDiagnostic::UnsupportedHookUnevaluated {
                hook,
                reason,
            } => BackendDiagnosticV::UnsupportedHookUnevaluated {
                hook: hook@,
                reason: reason@,
            },
        }
    }
}

impl DeepView for BackendDiagnostic {
    type V = BackendDiagnosticV;

    open spec fn deep_view(&self) -> BackendDiagnosticV {
        self@
    }
}

/// What is told of a result with the given record: that the iterations were used up.
pub open spec fn exhaustion_told(exhausted: Option<BudgetExhaustion>) -> Option<BackendDiagnosticV> {
    match exhausted {
        Some(BudgetExhaustion { limit, subject }) => Some(
            BackendDiagnosticV::SimplificationBudgetExhausted { limit, subject },
        ),
        None => None,
    }
}

/// What is told of a result with the given record.
pub fn exhaustion_diagnostic(exhausted: Option<BudgetExhaustion>) -> (result: Option<
    BackendDiagnostic,
>)
    ensures
        result.deep_view() == exhaustion_told(exhausted),
{
    match exhausted {
        Some(BudgetExhaustion { limit, subject }) => Some(
            BackendDiagnostic::SimplificationBudgetExhausted { limit, subject },
        ),
        None => None,
    }
}

/// Why a solver's answer decides nothing, where that is worth telling: because what is known is
/// inconsistent, or because the solver does not know.
pub open spec fn doubt_of_answer(answer: Result<ValidityV, SmtErrorV>) -> Option<
    ConditionIndeterminacyV,
> {
    match answer {
        Ok(ValidityV::InconsistentGroundTruth) => Some(
            ConditionIndeterminacyV::InconsistentPathCondition,
        ),
        Ok(ValidityV::Unknown(message)) => Some(ConditionIndeterminacyV::SmtUnknown(message)),
        _ => None,
    }
}

fn find_doubt(answer: &Result<Validity, SmtError>) -> (result: Option<ConditionIndeterminacy>)
    ensures
        result.deep_view() == doubt_of_answer(result_view(*answer)),
{
    match answer {
        Ok(Validity::InconsistentGroundTruth) => Some(
            ConditionIndeterminacy::InconsistentPathCondition,
        ),
        Ok(Validity::Unknown(message)) => Some(
            ConditionIndeterminacy::SmtUnknown(message.duplicate()),
        ),
        _ => None,
    }
}

/// What is told of a rule's condition that a solver was asked for.
pub open spec fn condition_told(
    rule_id: Seq<char>,
    predicates: Seq<PredicateV>,
    answer: Result<ValidityV, SmtErrorV>,
) -> Option<BackendDiagnosticV> {
    match doubt_of_answer(answer) {
        Some(reason) => Some(
            BackendDiagnosticV::UndecidedCondition { rule_id, reason, predicates },
        ),
        None => None,
    }
}

/// What is told of a rule's condition that a solver was asked for.
pub fn condition_diagnostic(
    rule_id: &String,
    predicates: &Vec<Predicate>,
    answer: &Result<Validity, SmtError>,
) -> (result: Option<BackendDiagnostic>)
    ensures
        result.deep_view() == condition_told(rule_id@, deep(predicates@), result_view(*answer)),
{
    match find_doubt(answer) {
        Some(reason) => Some(
            BackendDiagnostic::UndecidedCondition {
                rule_id: rule_id.duplicate(),
                reason,
                predicates: predicates.duplicate(),
            },
        ),
        None => None,
    }
}

/// What is told of a predicate that a solver was asked for.
pub open spec fn predicate_told(
    predicate: PredicateV,
    answer: Result<ValidityV, SmtErrorV>,
) -> Option<BackendDiagnosticV> {
    match doubt_of_answer(answer) {
        Some(reason) => Some(BackendDiagnosticV::UndecidedPredicate { predicate, reason }),
        None => None,
    }
}

/// What is told of a predicate that a solver was asked for.
pub fn predicate_diagnostic(predicate: &Predicate, answer: &Result<Validity, SmtError>) -> (result:
    Option<BackendDiagnostic>)
    ensures
        result.deep_view() == predicate_told(predicate@, result_view(*answer)),
{
    match find_doubt(answer) {
        Some(reason) => Some(
            BackendDiagnostic::UndecidedPredicate { predicate: predicate.duplicate(), reason },
        ),
        None => None,
    }
}

/// What is told of a term that nothing reduces: that its builtin function is not supported, where
/// some of its arguments are no values yet.
pub open spec fn hook_told(
    term: TermV,
    unsupported: Option<UnsupportedHookReasonV>,
) -> Option<BackendDiagnosticV> {
    match unsupported {
        Some(reason) => if hooked(term) && !all_constructor_like(term->Application_arguments) {
            Some(
                BackendDiagnosticV::UnsupportedHookUnevaluated {
                    hook: term->Application_symbol.attributes.hook->0,
                    reason,
                },
            )
        } else {
            None
        },
        None => None,
    }
}

/// What is told of a term that nothing reduces.
pub fn hook_diagnostic(term: &Term, unsupported: &Option<UnsupportedHookReason>) -> (result: Option<
    BackendDiagnostic,
>)
    ensures
        result.deep_view() == hook_told(term@, unsupported.deep_view()),
{
    proof {
        lemma_term_view(*term);
    }
    match (term, unsupported) {
        (Term::Application { symbol, arguments, .. }, Some(reason)) => match &symbol.attributes.hook {
            Some(hook) => {
                if are_constructor_like(arguments) {
                    return None;
                }
                Some(
                    BackendDiagnostic::UnsupportedHookUnevaluated {
                        hook: hook.duplicate(),
                        reason: reason.duplicate(),
                    },
                )
            },
            None => None,
        },
        _ => None,
    }
}

/// Whether `kernel` has heard of a diagnostic, where there is one.
pub open spec fn told<K: Kernel>(kernel: K, diagnostic: Option<BackendDiagnosticV>) -> bool {
    match diagnostic {
        Some(diagnostic) => kernel.heard(diagnostic),
        None => true,
    }
}

/// Tell a diagnostic, where there is one.
pub(crate) fn tell<K: Kernel>(kernel: &K, diagnostic: Option<BackendDiagnostic>)
    ensures
        told(*kernel, diagnostic.deep_view()),
{
    if let Some(diagnostic) = diagnostic {
        kernel.emit(diagnostic);
    }
}

} // verus!
