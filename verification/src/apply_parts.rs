//! The steps of applying a rule whose left-hand side matches.

use vstd::prelude::*;
use crate::definition::BackendDefinition;
use crate::index::{extend_unique, unique_extension};
use crate::kernel::{result_view, BuiltinEffect, BuiltinEffectV, Kernel};
use crate::model::{contains, deep, group_deep, Value};
use crate::ops::{children, inserted, insert_sorted, lemma_child_smaller};
use crate::pattern::{Pattern, PatternV};
use crate::predicate::{lemma_predicate_view, Predicate, PredicateV};
use crate::predicates::{predicates_substituted, substitute_predicates};
use crate::rewrite_types::{
    AppliedRule, AppliedRuleV, IndeterminateReason, IndeterminateReasonV, RhsAlternativeAttempt,
    RhsAlternativeAttemptV, RuleApplication, RuleApplicationV, TrivialApplication,
    TrivialApplicationV,
};
use crate::rule::{RewriteRule, RewriteRuleV};
use crate::simplification::{
    conjunction_simplified, simplified, simplify_predicates_with_solver, simplify_with_solver,
};
use crate::simplify_types::{SimplificationError, SimplificationErrorV, SimplificationOptions};
use crate::solver::{SmtError, SmtErrorV, SmtSolver, Validity, ValidityV};
use crate::substitution::{substitute, substituted, Substitution, SubstitutionV};
use crate::term::{lemma_term_view, Term, TermV, Variable, VariableV};
use crate::truth::{conjunction_truth, predicate_truth, predicates_truth, truth_of, Truth};

verus! {

broadcast use group_deep;

/// A rule, the pattern that it is applied to, and what it is applied under.
pub struct RuleScope<'a, K: Kernel, S: SmtSolver> {
    pub definition: &'a BackendDefinition<K>,
    pub solver: &'a S,
    pub rule: &'a RewriteRule,
    pub pattern: &'a Pattern,
    pub options: SimplificationOptions,
    /// Whether the term of the pattern is known to be defined.
    pub assume_defined: bool,
}

/// The view of a [`RuleScope`].
pub struct RuleScopeV<'a, K: Kernel, S: SmtSolver> {
    pub definition: &'a BackendDefinition<K>,
    pub solver: &'a S,
    pub rule: RewriteRuleV,
    pub pattern: PatternV,
    pub options: SimplificationOptions,
    pub assume_defined: bool,
}

impl<'a, K: Kernel, S: SmtSolver> View for RuleScope<'a, K, S> {
    type V = RuleScopeV<'a, K, S>;

    open spec fn view(&self) -> RuleScopeV<'a, K, S> {
        RuleScopeV {
            definition: self.definition,
            solver: self.solver,
            rule: self.rule@,
            pattern: self.pattern@,
            options: self.options,
            assume_defined: self.assume_defined,
        }
    }
}

impl<'a, K: Kernel, S: SmtSolver> RuleScopeV<'a, K, S> {
    /// What is known of the pattern.
    pub open spec fn path_knowledge(self) -> Seq<PredicateV> {
        if self.assume_defined {
            unique_extension(
                self.pattern.constraints,
                self.definition.kernel.ceil(self.pattern.term),
            )
        } else {
            self.pattern.constraints
        }
    }

    /// `predicates` simplified under `known`, or the reason why it is not known whether the rule
    /// applies.
    pub open spec fn simplified(self, predicates: Seq<PredicateV>, known: Seq<PredicateV>) -> Result<
        Seq<PredicateV>,
        IndeterminateReasonV,
    > {
        match conjunction_simplified(self.definition, self.solver, predicates, known, self.options) {
            Ok(result) => Ok(result),
            Err(error) => Err(self.failure(error)),
        }
    }

    /// A failure to simplify as the reason why it is not known whether the rule applies.
    pub open spec fn failure(self, error: SimplificationErrorV) -> IndeterminateReasonV {
        IndeterminateReasonV::Simplification {
            rule_id: Some(self.rule.attributes.unique_id),
            error,
        }
    }

    /// A failure of the solver as the reason why it is not known whether the rule applies.
    pub open spec fn unsolved(self, error: SmtErrorV) -> IndeterminateReasonV {
        IndeterminateReasonV::Smt { rule_id: self.rule.attributes.unique_id, error }
    }
}

impl<'a, K: Kernel, S: SmtSolver> RuleScope<'a, K, S> {
    pub(crate) fn path_knowledge(&self) -> (result: Vec<Predicate>)
        ensures
            deep(result@) == self@.path_knowledge(),
    {
        let mut knowledge = self.pattern.constraints.duplicate();
        if self.assume_defined {
            extend_unique(
                &mut knowledge,
                self.definition.kernel.ceil_term(&self.pattern.term),
            );
        }
        knowledge
    }

    pub(crate) fn simplify(&self, predicates: &Vec<Predicate>, known: &Vec<Predicate>) -> (result:
        Result<Vec<Predicate>, IndeterminateReason>)
        ensures
            result_view(result) == self@.simplified(deep(predicates@), deep(known@)),
    {
        match simplify_predicates_with_solver(
            self.definition,
            predicates,
            known,
            self.options,
            self.solver,
        ) {
            Ok(result) => Ok(result),
            Err(error) => Err(self.failure(error)),
        }
    }

    pub(crate) fn failure(&self, error: SimplificationError) -> (reason: IndeterminateReason)
        ensures
            reason@ == self@.failure(error@),
    {
        IndeterminateReason::Simplification {
            rule_id: Some(self.rule.attributes.unique_id.duplicate()),
            error,
        }
    }

    pub(crate) fn unsolved(&self, error: SmtError) -> (reason: IndeterminateReason)
        ensures
            reason@ == self@.unsolved(error@),
    {
        IndeterminateReason::Smt { rule_id: self.rule.attributes.unique_id.duplicate(), error }
    }
}

/// `found` with the predicates from `from` on that are neither decided nor known.
pub open spec fn undecided(
    predicates: Seq<PredicateV>,
    known: Seq<PredicateV>,
    found: Seq<PredicateV>,
    from: int,
) -> Seq<PredicateV>
    decreases predicates.len() - from,
{
    if from >= predicates.len() {
        found
    } else {
        let next = if truth_of(predicates[from]) is Unknown && !known.contains(predicates[from]) {
            found.push(predicates[from])
        } else {
            found
        };
        undecided(predicates, known, next, from + 1)
    }
}

/// The predicates that are neither decided nor known.
pub(crate) fn keep_undecided(predicates: &Vec<Predicate>, known: &Vec<Predicate>) -> (result: Vec<
    Predicate,
>)
    ensures
        deep(result@) == undecided(deep(predicates@), deep(known@), Seq::empty(), 0),
{
    let mut result: Vec<Predicate> = Vec::new();
    let mut i: usize = 0;
    while i < predicates.len()
        invariant
            i <= predicates.len(),
            undecided(deep(predicates@), deep(known@), Seq::empty(), 0) == undecided(
                deep(predicates@),
                deep(known@),
                deep(result@),
                i as int,
            ),
        decreases predicates.len() - i,
    {
        assert(deep(predicates@)[i as int] == predicates[i as int]@);
        if matches!(predicate_truth(&predicates[i]), Truth::Unknown) && !contains(
            known,
            &predicates[i],
        ) {
            result.push(predicates[i].duplicate());
        }
        i += 1;
    }
    result
}

/// The case in which a rule does not apply.
pub open spec fn remainder_of(applicability: PredicateV) -> PredicateV {
    if applicability is True {
        PredicateV::False
    } else {
        PredicateV::Not(Box::new(applicability))
    }
}

fn negate_applicability(applicability: &Predicate) -> (result: Predicate)
    ensures
        result@ == remainder_of(applicability@),
{
    proof {
        lemma_predicate_view(*applicability);
    }
    if matches!(applicability, Predicate::True) {
        Predicate::constant(false)
    } else {
        Predicate::negation(applicability.duplicate())
    }
}

/// A rule that unifies without a result.
pub open spec fn trivially_applied(rule: RewriteRuleV, applicability: PredicateV) -> TrivialApplicationV {
    TrivialApplicationV {
        rule_id: rule.attributes.unique_id,
        label: rule.attributes.label,
        applicability,
        remainder: remainder_of(applicability),
    }
}

pub(crate) fn trivial_application(rule: &RewriteRule, applicability: &Predicate) -> (result:
    TrivialApplication)
    ensures
        result@ == trivially_applied(rule@, applicability@),
{
    TrivialApplication {
        rule_id: rule.attributes.unique_id.duplicate(),
        label: rule.attributes.label.duplicate(),
        applicability: applicability.duplicate(),
        remainder: negate_applicability(applicability),
    }
}

// ---------------------------------------------------------------------------------------------
// Aliases
// ---------------------------------------------------------------------------------------------
/// The sorted set `found` with `term` in it, where it is a variable.
pub open spec fn with_alias(found: Seq<VariableV>, term: TermV) -> Seq<VariableV> {
    match term {
        TermV::Variable(variable) => inserted::<Variable>(found, variable),
        _ => found,
    }
}

/// The sorted set `found` with the variables in it that stand in a conjunction of `term`.
pub open spec fn aliases(term: TermV, found: Seq<VariableV>) -> Seq<VariableV>
    decreases term, 1int, 0int,
{
    let start = match term {
        TermV::And(left, right) => with_alias(with_alias(found, *left), *right),
        _ => found,
    };
    child_aliases(term, 0, start)
}

/// The sorted set `found` with the aliases of the children from `from` on in it.
pub open spec fn child_aliases(term: TermV, from: int, found: Seq<VariableV>) -> Seq<VariableV>
    decreases term, 0int, children(term).len() - from,
{
    if 0 <= from < children(term).len() {
        proof {
            lemma_child_smaller(term, from);
        }
        child_aliases(term, from + 1, aliases(children(term)[from], found))
    } else {
        found
    }
}

fn add_alias(term: &Term, found: &mut Vec<Variable>)
    ensures
        deep(final(found)@) == with_alias(deep(old(found)@), term@),
{
    proof {
        lemma_term_view(*term);
    }
    if let Term::Variable(variable) = term {
        insert_sorted(found, variable.duplicate());
    }
}

fn collect_aliases(term: &Term, found: &mut Vec<Variable>)
    ensures
        deep(final(found)@) == aliases(term@, deep(old(found)@)),
    decreases term@,
{
    proof {
        lemma_term_view(*term);
    }
    if let Term::And(left, right) = term {
        add_alias(left, found);
        add_alias(right, found);
    }
    let ghost start = deep(found@);
    let kids = term.children();
    let mut i: usize = 0;
    while i < kids.len()
        invariant
            i <= kids.len(),
            deep(kids@) == children(term@),
            child_aliases(term@, 0, start) == child_aliases(term@, i as int, deep(found@)),
        decreases kids.len() - i,
    {
        assert(deep(kids@)[i as int] == kids[i as int]@);
        proof {
            lemma_child_smaller(term@, i as int);
        }
        collect_aliases(kids[i], found);
        i += 1;
    }
}

/// The sorted set of the variables that stand in a conjunction of `term`: aliases of terms.
pub fn term_alias_variables(term: &Term) -> (result: Vec<Variable>)
    ensures
        deep(result@) == aliases(term@, Seq::empty()),
{
    let mut found: Vec<Variable> = Vec::new();
    collect_aliases(term, &mut found);
    found
}

/// `found` with the bindings from `from` on whose variables are not in `dropped`.
pub open spec fn bindings_without(
    bindings: SubstitutionV,
    dropped: Seq<VariableV>,
    found: SubstitutionV,
    from: int,
) -> SubstitutionV
    decreases bindings.len() - from,
{
    if from >= bindings.len() {
        found
    } else {
        let next = if dropped.contains(bindings[from].0) {
            found
        } else {
            found.push(bindings[from])
        };
        bindings_without(bindings, dropped, next, from + 1)
    }
}

fn drop_bindings(substitution: &Substitution, dropped: &Vec<Variable>) -> (result: Substitution)
    ensures
        result@ == bindings_without(substitution@, deep(dropped@), Seq::empty(), 0),
{
    let mut bindings: Vec<(Variable, Term)> = Vec::new();
    let mut i: usize = 0;
    while i < substitution.bindings.len()
        invariant
            i <= substitution.bindings.len(),
            bindings_without(substitution@, deep(dropped@), Seq::empty(), 0) == bindings_without(
                substitution@,
                deep(dropped@),
                deep(bindings@),
                i as int,
            ),
        decreases substitution.bindings.len() - i,
    {
        assert(deep(substitution.bindings@)[i as int]
            == substitution.bindings[i as int].deep_view());
        if !contains(dropped, &substitution.bindings[i].0) {
            bindings.push(substitution.bindings[i].duplicate());
        }
        i += 1;
    }
    Substitution { bindings }
}

// ---------------------------------------------------------------------------------------------
// One outcome of a rule
// ---------------------------------------------------------------------------------------------
/// Whether the right-hand side may be undefined, and has to be simplified for that.
pub open spec fn may_be_undefined(rule: RewriteRuleV) -> bool {
    rule.computed_attributes.undefined_symbols.len() > 0
}

/// A result, its conditions, and its effects.
pub type OutcomeV = (TermV, Seq<PredicateV>, Seq<BuiltinEffectV>);

/// The right-hand side, simplified where it may be undefined.
pub open spec fn outcome_simplified<'a, K: Kernel, S: SmtSolver>(
    scope: RuleScopeV<'a, K, S>,
    rhs: TermV,
    known: Seq<PredicateV>,
) -> Result<OutcomeV, IndeterminateReasonV> {
    if !may_be_undefined(scope.rule) {
        Ok((rhs, Seq::empty(), Seq::empty()))
    } else {
        match simplified(scope.definition, scope.solver, rhs, known, scope.options) {
            Ok(result) => Ok((result.term, result.constraints, result.effects)),
            Err(error) => Err(scope.failure(error)),
        }
    }
}

/// The conditions of a result, with those under which it is defined where these do not follow from
/// what is known; nothing where it is not defined.
pub open spec fn outcome_defined<'a, K: Kernel, S: SmtSolver>(
    scope: RuleScopeV<'a, K, S>,
    rhs: TermV,
    constraints: Seq<PredicateV>,
    known: Seq<PredicateV>,
) -> Result<Option<Seq<PredicateV>>, IndeterminateReasonV> {
    if !may_be_undefined(scope.rule) {
        Ok(Some(constraints))
    } else {
        match scope.simplified(scope.definition.kernel.ceil(rhs), known) {
            Err(reason) => Err(reason),
            Ok(obligations) => match conjunction_truth(obligations) {
                Truth::True => Ok(Some(constraints)),
                Truth::False => Ok(None),
                Truth::Unknown => match scope.solver.validity(known, Seq::empty(), obligations) {
                    Ok(ValidityV::Valid) => Ok(Some(constraints)),
                    Ok(ValidityV::Invalid) | Ok(ValidityV::InconsistentGroundTruth) => Ok(None),
                    _ => Ok(Some(unique_extension(constraints, obligations))),
                },
            },
        }
    }
}

/// The conditions that a rule ensures and that do not follow from what is known; nothing where they
/// contradict it.
pub open spec fn ensured_conditions<'a, K: Kernel, S: SmtSolver>(
    scope: RuleScopeV<'a, K, S>,
    ensured: Seq<PredicateV>,
    known: Seq<PredicateV>,
) -> Result<Option<Seq<PredicateV>>, IndeterminateReasonV> {
    match scope.simplified(ensured, known) {
        Err(reason) => Err(reason),
        Ok(conditions) => match conjunction_truth(conditions) {
            Truth::False => Ok(None),
            Truth::True => Ok(Some(conditions)),
            Truth::Unknown => match scope.solver.validity(known, Seq::empty(), conditions) {
                Ok(ValidityV::Invalid) | Ok(ValidityV::InconsistentGroundTruth) => Ok(None),
                Ok(ValidityV::Valid) => Ok(Some(Seq::empty())),
                Ok(ValidityV::Indeterminate) | Err(SmtErrorV::Unavailable) => Ok(Some(conditions)),
                Ok(ValidityV::Unknown(reason)) => Err(
                    scope.unsolved(SmtErrorV::Unknown(reason)),
                ),
                Err(error) => Err(scope.unsolved(error)),
            },
        },
    }
}

/// How a rule applies: the bindings, the names of its existential variables, the conditions of the
/// match, those of the rule's requirements that are open, and the two together.
pub struct Applicability {
    pub substitution: Substitution,
    pub existentials: Substitution,
    pub match_conditions: Vec<Predicate>,
    pub unclear: Vec<Predicate>,
    pub condition: Predicate,
}

/// The view of [`Applicability`].
pub struct ApplicabilityV {
    pub substitution: SubstitutionV,
    pub existentials: SubstitutionV,
    pub match_conditions: Seq<PredicateV>,
    pub unclear: Seq<PredicateV>,
    pub condition: PredicateV,
}

impl View for Applicability {
    type V = ApplicabilityV;

    open spec fn view(&self) -> ApplicabilityV {
        ApplicabilityV {
            substitution: self.substitution@,
            existentials: self.existentials@,
            match_conditions: deep(self.match_conditions@),
            unclear: deep(self.unclear@),
            condition: self.condition@,
        }
    }
}

/// The application with a result.
pub open spec fn application_of<'a, K: Kernel, S: SmtSolver>(
    scope: RuleScopeV<'a, K, S>,
    applicability: ApplicabilityV,
    rhs: TermV,
    effects: Seq<BuiltinEffectV>,
    constraints: Seq<PredicateV>,
    ensured: Seq<PredicateV>,
) -> RuleApplicationV {
    let rule_predicates = unique_extension(
        unique_extension(
            unique_extension(
                unique_extension(Seq::empty(), applicability.match_conditions),
                applicability.unclear,
            ),
            constraints,
        ),
        ensured,
    );
    RuleApplicationV {
        applied: AppliedRuleV {
            before: scope.pattern,
            pattern: PatternV {
                term: rhs,
                constraints: unique_extension(scope.pattern.constraints, rule_predicates),
            },
            label: scope.rule.attributes.label,
            unique_id: scope.rule.attributes.unique_id,
            substitution: applicability.substitution,
            rule_substitution: bindings_without(
                applicability.substitution,
                aliases(scope.rule.lhs, Seq::empty()),
                Seq::empty(),
                0,
            ),
            rule_predicates,
            effects,
        },
        remainder: remainder_of(applicability.condition),
    }
}

/// What one outcome of a rule gives, under what is known.
pub open spec fn alternative_applied<'a, K: Kernel, S: SmtSolver>(
    scope: RuleScopeV<'a, K, S>,
    applicability: ApplicabilityV,
    rhs: TermV,
    ensured: Seq<PredicateV>,
    known: Seq<PredicateV>,
) -> RhsAlternativeAttemptV {
    let rhs = substituted(
        substituted(rhs, applicability.substitution),
        applicability.existentials,
    );
    match outcome_simplified(scope, rhs, known) {
        Err(reason) => RhsAlternativeAttemptV::Indeterminate(reason),
        Ok((rhs, constraints, effects)) => {
            let known = unique_extension(known, constraints);
            match outcome_defined(scope, rhs, constraints, known) {
                Err(reason) => RhsAlternativeAttemptV::Indeterminate(reason),
                Ok(None) => RhsAlternativeAttemptV::Trivial,
                Ok(Some(constraints)) => match ensured_conditions(
                    scope,
                    predicates_substituted(
                        predicates_substituted(ensured, applicability.substitution),
                        applicability.existentials,
                    ),
                    known,
                ) {
                    Err(reason) => RhsAlternativeAttemptV::Indeterminate(reason),
                    Ok(None) => RhsAlternativeAttemptV::Trivial,
                    Ok(Some(ensured)) => RhsAlternativeAttemptV::Applied(
                        application_of(scope, applicability, rhs, effects, constraints, ensured),
                    ),
                },
            }
        },
    }
}

#[verifier::spinoff_prover]
fn simplify_outcome<'a, K: Kernel, S: SmtSolver>(
    scope: &RuleScope<'a, K, S>,
    rhs: Term,
    known: &Vec<Predicate>,
) -> (result: Result<(Term, Vec<Predicate>, Vec<BuiltinEffect>), IndeterminateReason>)
    ensures
        match outcome_simplified(scope@, rhs@, deep(known@)) {
            Ok((term, constraints, effects)) => result is Ok && result->Ok_0.0@ == term && deep(
                result->Ok_0.1@,
            ) == constraints && deep(result->Ok_0.2@) == effects,
            Err(reason) => result is Err && result->Err_0@ == reason,
        },
{
    if scope.rule.computed_attributes.undefined_symbols.len() == 0 {
        return Ok((rhs, Vec::new(), Vec::new()));
    }
    match simplify_with_solver(scope.definition, &rhs, known, scope.options, scope.solver) {
        Ok(result) => Ok((result.term, result.constraints, result.effects)),
        Err(error) => Err(scope.failure(error)),
    }
}

#[verifier::spinoff_prover]
fn define_outcome<'a, K: Kernel, S: SmtSolver>(
    scope: &RuleScope<'a, K, S>,
    rhs: &Term,
    constraints: Vec<Predicate>,
    known: &Vec<Predicate>,
) -> (result: Result<Option<Vec<Predicate>>, IndeterminateReason>)
    ensures
        result_view(result) == outcome_defined(scope@, rhs@, deep(constraints@), deep(known@)),
{
    if scope.rule.computed_attributes.undefined_symbols.len() == 0 {
        return Ok(Some(constraints));
    }
    let obligations = match scope.simplify(&scope.definition.kernel.ceil_term(rhs), known) {
        Ok(obligations) => obligations,
        Err(reason) => {
            return Err(reason);
        },
    };
    match predicates_truth(&obligations) {
        Truth::True => Ok(Some(constraints)),
        Truth::False => Ok(None),
        Truth::Unknown => match scope.solver.check_predicates(
            known,
            &Substitution::new(),
            &obligations,
        ) {
            Ok(Validity::Valid) => Ok(Some(constraints)),
            Ok(Validity::Invalid) | Ok(Validity::InconsistentGroundTruth) => Ok(None),
            _ => {
                let mut all = constraints;
                extend_unique(&mut all, obligations);
                Ok(Some(all))
            },
        },
    }
}

#[verifier::spinoff_prover]
fn decide_ensured<'a, K: Kernel, S: SmtSolver>(
    scope: &RuleScope<'a, K, S>,
    ensured: &Vec<Predicate>,
    known: &Vec<Predicate>,
) -> (result: Result<Option<Vec<Predicate>>, IndeterminateReason>)
    ensures
        result_view(result) == ensured_conditions(scope@, deep(ensured@), deep(known@)),
{
    let conditions = match scope.simplify(ensured, known) {
        Ok(conditions) => conditions,
        Err(reason) => {
            return Err(reason);
        },
    };
    match predicates_truth(&conditions) {
        Truth::False => Ok(None),
        Truth::True => Ok(Some(conditions)),
        Truth::Unknown => match scope.solver.check_predicates(
            known,
            &Substitution::new(),
            &conditions,
        ) {
            Ok(Validity::Invalid) | Ok(Validity::InconsistentGroundTruth) => Ok(None),
            Ok(Validity::Valid) => Ok(Some(Vec::new())),
            Ok(Validity::Indeterminate) | Err(SmtError::Unavailable) => Ok(Some(conditions)),
            Ok(Validity::Unknown(reason)) => Err(scope.unsolved(SmtError::Unknown(reason))),
            Err(error) => Err(scope.unsolved(error)),
        },
    }
}

#[verifier::spinoff_prover]
fn make_application<'a, K: Kernel, S: SmtSolver>(
    scope: &RuleScope<'a, K, S>,
    applicability: &Applicability,
    rhs: Term,
    effects: Vec<BuiltinEffect>,
    constraints: Vec<Predicate>,
    ensured: Vec<Predicate>,
) -> (result: RuleApplication)
    ensures
        result@ == application_of(
            scope@,
            applicability@,
            rhs@,
            deep(effects@),
            deep(constraints@),
            deep(ensured@),
        ),
{
    let alias_variables = term_alias_variables(&scope.rule.lhs);
    let rule_substitution = drop_bindings(&applicability.substitution, &alias_variables);
    let mut rule_predicates: Vec<Predicate> = Vec::new();
    extend_unique(&mut rule_predicates, applicability.match_conditions.duplicate());
    extend_unique(&mut rule_predicates, applicability.unclear.duplicate());
    extend_unique(&mut rule_predicates, constraints);
    extend_unique(&mut rule_predicates, ensured);
    let mut all = scope.pattern.constraints.duplicate();
    extend_unique(&mut all, rule_predicates.duplicate());
    RuleApplication {
        applied: AppliedRule {
            before: scope.pattern.duplicate(),
            pattern: Pattern { term: rhs, constraints: all },
            label: scope.rule.attributes.label.duplicate(),
            unique_id: scope.rule.attributes.unique_id.duplicate(),
            substitution: applicability.substitution.duplicate(),
            rule_substitution,
            rule_predicates,
            effects,
        },
        remainder: negate_applicability(&applicability.condition),
    }
}

#[verifier::spinoff_prover]
pub(crate) fn apply_rhs_alternative<'a, K: Kernel, S: SmtSolver>(
    scope: &RuleScope<'a, K, S>,
    applicability: &Applicability,
    rhs: &Term,
    ensured: &Vec<Predicate>,
    known: &Vec<Predicate>,
) -> (result: RhsAlternativeAttempt)
    ensures
        result@ == alternative_applied(
            scope@,
            applicability@,
            rhs@,
            deep(ensured@),
            deep(known@),
        ),
{
    let rhs = substitute(
        &substitute(rhs, &applicability.substitution),
        &applicability.existentials,
    );
    let (rhs, constraints, effects) = match simplify_outcome(scope, rhs, known) {
        Ok(outcome) => outcome,
        Err(reason) => {
            return RhsAlternativeAttempt::Indeterminate(reason);
        },
    };
    let mut all_known = known.duplicate();
    extend_unique(&mut all_known, constraints.duplicate());
    let constraints = match define_outcome(scope, &rhs, constraints, &all_known) {
        Ok(Some(constraints)) => constraints,
        Ok(None) => {
            return RhsAlternativeAttempt::Trivial;
        },
        Err(reason) => {
            return RhsAlternativeAttempt::Indeterminate(reason);
        },
    };
    let ensured = substitute_predicates(
        &substitute_predicates(ensured, &applicability.substitution),
        &applicability.existentials,
    );
    match decide_ensured(scope, &ensured, &all_known) {
        Ok(Some(ensured)) => RhsAlternativeAttempt::Applied(
            make_application(scope, applicability, rhs, effects, constraints, ensured),
        ),
        Ok(None) => RhsAlternativeAttempt::Trivial,
        Err(reason) => RhsAlternativeAttempt::Indeterminate(reason),
    }
}

} // verus!
