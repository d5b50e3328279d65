//! Recovery of matches that the matcher leaves open, by simplification and unification.

use vstd::prelude::*;
use crate::construct::{constructor_like, variables_of};
use crate::definition::BackendDefinition;
use crate::assoc::assoc;
use crate::index::{extend_unique, unique_extension};
use crate::kernel::{
    result_view, Kernel, UnificationFailure, UnificationFailureV, UnificationResult,
    UnificationResultV,
};
use crate::matcher::{definition_context, match_terms_in_definition, terms_matched};
use crate::matching::{FailReason, FailReasonV, MatchMode, MatchResult, MatchResultV};
use crate::model::{deep, group_deep, intersect, intersection, Value};
use crate::ops::sort_of;
use crate::predicate::{Predicate, PredicateV};
use crate::predicates::{predicates_substituted, substitute_predicates};
use crate::simplification::{simplified, simplify_with_solver};
use crate::simplify_types::{SimplificationError, SimplificationErrorV, SimplificationOptions};
use crate::solver::SmtSolver;
use crate::substitution::{compose, composed, substitute, substituted, Substitution, SubstitutionV};
use crate::term::{lemma_term_view, Sort, SortV, SymbolType, Term, TermV, Variable, VariableV};

verus! {

broadcast use group_deep;

/// A match after recovery, and the conditions under which it holds.
#[derive(Debug, PartialEq, Eq)]
pub struct RecoveredMatch {
    pub result: MatchResult,
    pub conditions: Vec<Predicate>,
}

/// The view of [`RecoveredMatch`].
pub struct RecoveredMatchV {
    pub result: MatchResultV,
    pub conditions: Seq<PredicateV>,
}

impl View for RecoveredMatch {
    type V = RecoveredMatchV;

    open spec fn view(&self) -> RecoveredMatchV {
        RecoveredMatchV {
            result: self.result@,
            conditions: deep(self.conditions@),
        }
    }
}

impl DeepView for RecoveredMatch {
    type V = RecoveredMatchV;

    open spec fn deep_view(&self) -> RecoveredMatchV {
        self@
    }
}

impl Value for RecoveredMatch {
    fn duplicate(&self) -> (copy: Self) {
        RecoveredMatch {
            result: self.result.duplicate(),
            conditions: self.conditions.duplicate(),
        }
    }

    fn equals(&self, other: &Self) -> (same: bool) {
        self.result.equals(&other.result)
            && self.conditions.equals(&other.conditions)
    }
}

/// How far recovery has come: what is bound, what is left open, and under which conditions.
#[derive(Debug, PartialEq, Eq)]
pub struct Recovery {
    pub substitution: Substitution,
    pub unresolved: Vec<(Term, Term)>,
    pub conditions: Vec<Predicate>,
}

/// The view of [`Recovery`].
pub struct RecoveryV {
    pub substitution: SubstitutionV,
    pub unresolved: Seq<(TermV, TermV)>,
    pub conditions: Seq<PredicateV>,
}

impl View for Recovery {
    type V = RecoveryV;

    open spec fn view(&self) -> RecoveryV {
        RecoveryV {
            substitution: self.substitution@,
            unresolved: deep(self.unresolved@),
            conditions: deep(self.conditions@),
        }
    }
}

impl DeepView for Recovery {
    type V = RecoveryV;

    open spec fn deep_view(&self) -> RecoveryV {
        self@
    }
}

impl Value for Recovery {
    fn duplicate(&self) -> (copy: Self) {
        Recovery {
            substitution: self.substitution.duplicate(),
            unresolved: self.unresolved.duplicate(),
            conditions: self.conditions.duplicate(),
        }
    }

    fn equals(&self, other: &Self) -> (same: bool) {
        self.substitution.equals(&other.substitution)
            && self.unresolved.equals(&other.unresolved)
            && self.conditions.equals(&other.conditions)
    }
}

/// What recovery makes of one pair.
#[derive(Debug, PartialEq, Eq)]
pub enum RecoveryStep {
    Next(Recovery),
    Failed(FailReason, Vec<Predicate>),
}

/// The view of [`RecoveryStep`].
pub enum RecoveryStepV {
    Next(RecoveryV),
    Failed(FailReasonV, Seq<PredicateV>),
}

impl View for RecoveryStep {
    type V = RecoveryStepV;

    open spec fn view(&self) -> RecoveryStepV {
        match self {
            RecoveryStep::Next(first) => RecoveryStepV::Next(first@),
            RecoveryStep::Failed(first, second) => RecoveryStepV::Failed(first@, deep(second@)),
        }
    }
}

impl DeepView for RecoveryStep {
    type V = RecoveryStepV;

    open spec fn deep_view(&self) -> RecoveryStepV {
        self@
    }
}

impl Value for RecoveryStep {
    fn duplicate(&self) -> (copy: Self) {
        match self {
            RecoveryStep::Next(first) => RecoveryStep::Next(first.duplicate()),
            RecoveryStep::Failed(first, second) => RecoveryStep::Failed(
                first.duplicate(),
                second.duplicate(),
            ),
        }
    }

    fn equals(&self, other: &Self) -> (same: bool) {
        match (self, other) {
            (RecoveryStep::Next(first), RecoveryStep::Next(other_first)) => first.equals(
                other_first,
            ),
            (
                RecoveryStep::Failed(first, second),
                RecoveryStep::Failed(other_first, other_second),
            ) => first.equals(other_first) && second.equals(other_second),
            _ => false,
        }
    }
}

// ---------------------------------------------------------------------------------------------
// By simplification
// ---------------------------------------------------------------------------------------------
/// What a match is recovered under.
pub struct RecoveryScope<'a, K: Kernel, S: SmtSolver> {
    pub definition: &'a BackendDefinition<K>,
    pub solver: &'a S,
    pub known: &'a Vec<Predicate>,
    pub options: SimplificationOptions,
}

/// The view of a [`RecoveryScope`].
pub struct RecoveryScopeV<'a, K: Kernel, S: SmtSolver> {
    pub definition: &'a BackendDefinition<K>,
    pub solver: &'a S,
    pub known: Seq<PredicateV>,
    pub options: SimplificationOptions,
}

impl<'a, K: Kernel, S: SmtSolver> View for RecoveryScope<'a, K, S> {
    type V = RecoveryScopeV<'a, K, S>;

    open spec fn view(&self) -> RecoveryScopeV<'a, K, S> {
        RecoveryScopeV {
            definition: self.definition,
            solver: self.solver,
            known: deep(self.known@),
            options: self.options,
        }
    }
}

impl<'a, K: Kernel, S: SmtSolver> RecoveryScopeV<'a, K, S> {
    /// `term` simplified under what is known and under `conditions`; the conditions that come up
    /// are put behind these.
    pub open spec fn simplified(self, term: TermV, conditions: Seq<PredicateV>) -> Result<
        (TermV, Seq<PredicateV>),
        SimplificationErrorV,
    > {
        match simplified(
            self.definition,
            self.solver,
            term,
            unique_extension(self.known, conditions),
            self.options,
        ) {
            Ok(result) => Ok((result.term, unique_extension(conditions, result.constraints))),
            Err(error) => Err(error),
        }
    }
}

impl<'a, K: Kernel, S: SmtSolver> RecoveryScope<'a, K, S> {
    fn simplify(&self, term: &Term, conditions: &mut Vec<Predicate>) -> (result: Result<
        Term,
        SimplificationError,
    >)
        ensures
            match self@.simplified(term@, deep(old(conditions)@)) {
                Ok((term, after)) => result is Ok && result->Ok_0@ == term && deep(
                    final(conditions)@,
                ) == after,
                Err(error) => result is Err && result->Err_0@ == error,
            },
    {
        let mut knowledge = self.known.duplicate();
        extend_unique(&mut knowledge, conditions.duplicate());
        match simplify_with_solver(self.definition, term, &knowledge, self.options, self.solver) {
            Ok(result) => {
                extend_unique(conditions, result.constraints);
                Ok(result.term)
            },
            Err(error) => Err(error),
        }
    }
}

/// The failure of a match for a failure to unify.
pub open spec fn failure_of(failure: UnificationFailureV) -> FailReasonV {
    match failure {
        UnificationFailureV::VariableRecursion(variable, term) => FailReasonV::VariableRecursion(
            variable,
            term,
        ),
        UnificationFailureV::DifferentSorts(left, right) => FailReasonV::DifferentSorts(
            left,
            right,
        ),
        UnificationFailureV::DifferentValues(left, right) => FailReasonV::DifferentValues(
            left,
            right,
        ),
        UnificationFailureV::DifferentSymbols(left, right) => FailReasonV::DifferentSymbols(
            left,
            right,
        ),
    }
}

fn fail_reason(failure: UnificationFailure) -> (reason: FailReason)
    ensures
        reason@ == failure_of(failure@),
{
    match failure {
        UnificationFailure::VariableRecursion(variable, term) => FailReason::VariableRecursion(
            variable,
            term,
        ),
        UnificationFailure::DifferentSorts(left, right) => FailReason::DifferentSorts(left, right),
        UnificationFailure::DifferentValues(left, right) => FailReason::DifferentValues(
            left,
            right,
        ),
        UnificationFailure::DifferentSymbols(left, right) => FailReason::DifferentSymbols(
            left,
            right,
        ),
    }
}

/// The variables from `from` on that are unbound and of sort `sort`, put behind `found`.
pub open spec fn witness_variables(
    variables: Seq<VariableV>,
    substitution: SubstitutionV,
    sort: SortV,
    found: Seq<VariableV>,
    from: int,
) -> Seq<VariableV>
    decreases variables.len() - from,
{
    if from >= variables.len() {
        found
    } else {
        let next = if assoc(substitution, variables[from]) is None && variables[from].sort == sort {
            found.push(variables[from])
        } else {
            found
        };
        witness_variables(variables, substitution, sort, next, from + 1)
    }
}

fn find_witness_variables(term: &Term, substitution: &Substitution, sort: &Sort) -> (result: Vec<
    Variable,
>)
    ensures
        deep(result@) == witness_variables(
            variables_of(term@),
            substitution@,
            sort@,
            Seq::empty(),
            0,
        ),
{
    let variables = term.variables();
    let mut result: Vec<Variable> = Vec::new();
    let mut i: usize = 0;
    while i < variables.len()
        invariant
            i <= variables.len(),
            deep(variables@) == variables_of(term@),
            witness_variables(variables_of(term@), substitution@, sort@, Seq::empty(), 0)
                == witness_variables(
                deep(variables@),
                substitution@,
                sort@,
                deep(result@),
                i as int,
            ),
        decreases variables.len() - i,
    {
        assert(deep(variables@)[i as int] == variables[i as int]@);
        if substitution.get(&variables[i]).is_none() && variables[i].sort.equals(sort) {
            result.push(variables[i].duplicate());
        }
        i += 1;
    }
    result
}

/// Whether a value can be tried for a variable in `pattern`: it is a function, and the subject a
/// constructor term.
pub open spec fn allows_witness(pattern: TermV, subject: TermV) -> bool {
    pattern is Application
        && pattern->Application_symbol.attributes.symbol_type is Function
        && constructor_like(subject)
}

/// Recovery with the subject tried as the value of the only unbound variable of its sort in the
/// pattern. `pattern` is the pattern before it was simplified, `simple` after.
pub open spec fn witness_tried<'a, K: Kernel, S: SmtSolver>(
    scope: RecoveryScopeV<'a, K, S>,
    pattern: TermV,
    simple: TermV,
    subject: TermV,
    open: Seq<(TermV, TermV)>,
    recovery: RecoveryV,
) -> Result<RecoveryStepV, SimplificationErrorV> {
    let candidates = witness_variables(
        variables_of(simple),
        recovery.substitution,
        sort_of(subject),
        Seq::empty(),
        0,
    );
    let left = RecoveryV { unresolved: recovery.unresolved + open, ..recovery };
    if !allows_witness(simple, subject) || candidates.len() != 1 {
        Ok(RecoveryStepV::Next(left))
    } else {
        let substitution = composed(seq![(candidates[0], subject)], recovery.substitution);
        match scope.simplified(substituted(pattern, substitution), recovery.conditions) {
            Err(error) => Err(error),
            Ok((candidate, conditions)) => match terms_matched(
                definition_context(MatchMode::Rewrite, scope.definition),
                candidate,
                subject,
            ) {
                MatchResultV::Success(found) => Ok(
                    RecoveryStepV::Next(
                        RecoveryV {
                            substitution: composed(found, substitution),
                            conditions,
                            ..recovery
                        },
                    ),
                ),
                _ => Ok(RecoveryStepV::Next(RecoveryV { conditions, ..left })),
            },
        }
    }
}

/// Recovery with a simplified pair matched.
pub open spec fn simple_pair_matched<'a, K: Kernel, S: SmtSolver>(
    scope: RecoveryScopeV<'a, K, S>,
    pattern: TermV,
    simple: TermV,
    subject: TermV,
    recovery: RecoveryV,
) -> Result<RecoveryStepV, SimplificationErrorV> {
    match terms_matched(
        definition_context(MatchMode::Rewrite, scope.definition),
        simple,
        subject,
    ) {
        MatchResultV::Success(found) => Ok(
            RecoveryStepV::Next(
                RecoveryV {
                    substitution: composed(found, recovery.substitution),
                    ..recovery
                },
            ),
        ),
        MatchResultV::Failed(reason) => Ok(RecoveryStepV::Failed(reason, recovery.conditions)),
        MatchResultV::Indeterminate { substitution: found, remainder } => witness_tried(
            scope,
            pattern,
            simple,
            subject,
            remainder,
            RecoveryV { substitution: composed(found, recovery.substitution), ..recovery },
        ),
    }
}

/// Recovery with a simplified pair unified, where the two share a variable, or else matched.
pub open spec fn simple_pair_recovered<'a, K: Kernel, S: SmtSolver>(
    scope: RecoveryScopeV<'a, K, S>,
    pattern: TermV,
    simple: TermV,
    subject: TermV,
    recovery: RecoveryV,
) -> Result<RecoveryStepV, SimplificationErrorV> {
    if intersection(variables_of(simple), variables_of(subject)).len() > 0 {
        match scope.definition.kernel.unified(recovery.substitution, seq![(simple, subject)]) {
            UnificationResultV::Unified { substitution, constraints } => Ok(
                RecoveryStepV::Next(
                    RecoveryV {
                        substitution,
                        conditions: unique_extension(recovery.conditions, constraints),
                        ..recovery
                    },
                ),
            ),
            UnificationResultV::Bottom(failure) => Ok(
                RecoveryStepV::Failed(failure_of(failure), recovery.conditions),
            ),
            UnificationResultV::Unsupported { .. } => simple_pair_matched(
                scope,
                pattern,
                simple,
                subject,
                recovery,
            ),
        }
    } else {
        simple_pair_matched(scope, pattern, simple, subject, recovery)
    }
}

/// Recovery with one more pair.
pub open spec fn pair_recovered<'a, K: Kernel, S: SmtSolver>(
    scope: RecoveryScopeV<'a, K, S>,
    pair: (TermV, TermV),
    recovery: RecoveryV,
) -> Result<RecoveryStepV, SimplificationErrorV> {
    let pattern = substituted(pair.0, recovery.substitution);
    let subject = substituted(pair.1, recovery.substitution);
    match scope.simplified(pattern, recovery.conditions) {
        Err(error) => Err(error),
        Ok((simple, conditions)) => match scope.simplified(subject, conditions) {
            Err(error) => Err(error),
            Ok((subject, conditions)) => simple_pair_recovered(
                scope,
                pattern,
                simple,
                subject,
                RecoveryV { conditions, ..recovery },
            ),
        },
    }
}

/// The match that recovery ends in.
pub open spec fn recovered_match(recovery: RecoveryV) -> RecoveredMatchV {
    RecoveredMatchV {
        result: if recovery.unresolved.len() == 0 {
            MatchResultV::Success(recovery.substitution)
        } else {
            MatchResultV::Indeterminate {
                substitution: recovery.substitution,
                remainder: recovery.unresolved,
            }
        },
        conditions: predicates_substituted(recovery.conditions, recovery.substitution),
    }
}

/// Recovery with the pairs from `from` on.
pub open spec fn recovered_from<'a, K: Kernel, S: SmtSolver>(
    scope: RecoveryScopeV<'a, K, S>,
    pairs: Seq<(TermV, TermV)>,
    recovery: RecoveryV,
    from: int,
) -> Result<RecoveredMatchV, SimplificationErrorV>
    decreases pairs.len() - from,
{
    if from >= pairs.len() {
        Ok(recovered_match(recovery))
    } else {
        match pair_recovered(scope, pairs[from], recovery) {
            Err(error) => Err(error),
            Ok(RecoveryStepV::Failed(reason, conditions)) => Ok(
                RecoveredMatchV { result: MatchResultV::Failed(reason), conditions },
            ),
            Ok(RecoveryStepV::Next(next)) => recovered_from(scope, pairs, next, from + 1),
        }
    }
}

/// A match with its open pairs simplified, and unified or matched again.
pub open spec fn match_recovered<'a, K: Kernel, S: SmtSolver>(
    scope: RecoveryScopeV<'a, K, S>,
    substitution: SubstitutionV,
    remainder: Seq<(TermV, TermV)>,
) -> Result<RecoveredMatchV, SimplificationErrorV> {
    recovered_from(
        scope,
        remainder,
        RecoveryV { substitution, unresolved: Seq::empty(), conditions: Seq::empty() },
        0,
    )
}

#[verifier::spinoff_prover]
fn try_witness<'a, K: Kernel, S: SmtSolver>(
    scope: &RecoveryScope<'a, K, S>,
    pattern: &Term,
    simple: &Term,
    subject: &Term,
    open: Vec<(Term, Term)>,
    recovery: Recovery,
) -> (result: Result<RecoveryStep, SimplificationError>)
    ensures
        result_view(result) == witness_tried(
            scope@,
            pattern@,
            simple@,
            subject@,
            deep(open@),
            recovery@,
        ),
{
    proof {
        lemma_term_view(*simple);
    }
    let Recovery { substitution: bound, mut unresolved, mut conditions } = recovery;
    let mut open = open;
    let allowed = match simple {
        Term::Application { symbol, .. } => matches!(
            symbol.attributes.symbol_type,
            SymbolType::Function(_)
        ) && subject.is_constructor_like(),
        _ => false,
    };
    if allowed {
        let candidates = find_witness_variables(simple, &bound, &subject.sort());
        if candidates.len() == 1 {
            assert(deep(candidates@)[0] == candidates[0]@);
            let witness = Substitution::singleton(candidates[0].duplicate(), subject.duplicate());
            let substitution = compose(&witness, &bound);
            let candidate = match scope.simplify(
                &substitute(pattern, &substitution),
                &mut conditions,
            ) {
                Ok(candidate) => candidate,
                Err(error) => {
                    return Err(error);
                },
            };
            if let MatchResult::Success(found) = match_terms_in_definition(
                MatchMode::Rewrite,
                scope.definition,
                &candidate,
                subject,
            ) {
                return Ok(
                    RecoveryStep::Next(
                        Recovery {
                            substitution: compose(&found, &substitution),
                            unresolved,
                            conditions,
                        },
                    ),
                );
            }
        }
    }
    unresolved.append(&mut open);
    Ok(RecoveryStep::Next(Recovery { substitution: bound, unresolved, conditions }))
}

#[verifier::spinoff_prover]
fn match_simple_pair<'a, K: Kernel, S: SmtSolver>(
    scope: &RecoveryScope<'a, K, S>,
    pattern: &Term,
    simple: &Term,
    subject: &Term,
    recovery: Recovery,
) -> (result: Result<RecoveryStep, SimplificationError>)
    ensures
        result_view(result) == simple_pair_matched(
            scope@,
            pattern@,
            simple@,
            subject@,
            recovery@,
        ),
{
    match match_terms_in_definition(MatchMode::Rewrite, scope.definition, simple, subject) {
        MatchResult::Success(found) => Ok(
            RecoveryStep::Next(
                Recovery {
                    substitution: compose(&found, &recovery.substitution),
                    unresolved: recovery.unresolved,
                    conditions: recovery.conditions,
                },
            ),
        ),
        MatchResult::Failed(reason) => Ok(RecoveryStep::Failed(reason, recovery.conditions)),
        MatchResult::Indeterminate { substitution: found, remainder } => try_witness(
            scope,
            pattern,
            simple,
            subject,
            remainder,
            Recovery {
                substitution: compose(&found, &recovery.substitution),
                unresolved: recovery.unresolved,
                conditions: recovery.conditions,
            },
        ),
    }
}

#[verifier::spinoff_prover]
fn recover_simple_pair<'a, K: Kernel, S: SmtSolver>(
    scope: &RecoveryScope<'a, K, S>,
    pattern: &Term,
    simple: &Term,
    subject: &Term,
    recovery: Recovery,
) -> (result: Result<RecoveryStep, SimplificationError>)
    ensures
        result_view(result) == simple_pair_recovered(
            scope@,
            pattern@,
            simple@,
            subject@,
            recovery@,
        ),
{
    if intersect(&simple.variables(), &subject.variables()).len() > 0 {
        let mut pairs: Vec<(Term, Term)> = Vec::new();
        pairs.push((simple.duplicate(), subject.duplicate()));
        assert(deep(pairs@) =~= seq![(simple@, subject@)]);
        match scope.definition.kernel.unify(recovery.substitution.duplicate(), pairs) {
            UnificationResult::Unified { substitution, constraints } => {
                let mut conditions = recovery.conditions;
                extend_unique(&mut conditions, constraints);
                return Ok(
                    RecoveryStep::Next(
                        Recovery { substitution, unresolved: recovery.unresolved, conditions },
                    ),
                );
            },
            UnificationResult::Bottom(failure) => {
                return Ok(RecoveryStep::Failed(fail_reason(failure), recovery.conditions));
            },
            UnificationResult::Unsupported { .. } => {},
        }
    }
    match_simple_pair(scope, pattern, simple, subject, recovery)
}

#[verifier::spinoff_prover]
fn recover_pair<'a, K: Kernel, S: SmtSolver>(
    scope: &RecoveryScope<'a, K, S>,
    pair: &(Term, Term),
    recovery: Recovery,
) -> (result: Result<RecoveryStep, SimplificationError>)
    ensures
        result_view(result) == pair_recovered(scope@, pair.deep_view(), recovery@),
{
    let Recovery { substitution, unresolved, mut conditions } = recovery;
    let pattern = substitute(&pair.0, &substitution);
    let subject = substitute(&pair.1, &substitution);
    let simple = match scope.simplify(&pattern, &mut conditions) {
        Ok(term) => term,
        Err(error) => {
            return Err(error);
        },
    };
    let subject = match scope.simplify(&subject, &mut conditions) {
        Ok(term) => term,
        Err(error) => {
            return Err(error);
        },
    };
    recover_simple_pair(
        scope,
        &pattern,
        &simple,
        &subject,
        Recovery { substitution, unresolved, conditions },
    )
}

/// Recover a match that was left open.
///
/// Both sides of each open pair are simplified, and unified or matched again; the conditions of
/// the simplification are kept. Where the pattern is a function with one unbound variable of the
/// subject's sort, the subject is tried as the value of that variable. That this does not give a
/// match leaves the pair open: another value might.
#[verifier::spinoff_prover]
pub(crate) fn recover_indeterminate_match<'a, K: Kernel, S: SmtSolver>(
    scope: &RecoveryScope<'a, K, S>,
    substitution: Substitution,
    remainder: &Vec<(Term, Term)>,
) -> (result: Result<RecoveredMatch, SimplificationError>)
    ensures
        result_view(result) == match_recovered(scope@, substitution@, deep(remainder@)),
{
    let mut recovery = Recovery { substitution, unresolved: Vec::new(), conditions: Vec::new() };
    let mut i: usize = 0;
    while i < remainder.len()
        invariant
            i <= remainder.len(),
            match_recovered(scope@, substitution@, deep(remainder@)) == recovered_from(
                scope@,
                deep(remainder@),
                recovery@,
                i as int,
            ),
        decreases remainder.len() - i,
    {
        assert(deep(remainder@)[i as int] == remainder[i as int].deep_view());
        match recover_pair(scope, &remainder[i], recovery) {
            Err(error) => {
                return Err(error);
            },
            Ok(RecoveryStep::Failed(reason, conditions)) => {
                return Ok(RecoveredMatch { result: MatchResult::Failed(reason), conditions });
            },
            Ok(RecoveryStep::Next(next)) => {
                recovery = next;
            },
        }
        i += 1;
    }
    let Recovery { substitution: bound, unresolved, conditions } = recovery;
    let conditions = substitute_predicates(&conditions, &bound);
    let result = if unresolved.len() == 0 {
        MatchResult::Success(bound)
    } else {
        MatchResult::Indeterminate { substitution: bound, remainder: unresolved }
    };
    Ok(RecoveredMatch { result, conditions })
}

} // verus!
