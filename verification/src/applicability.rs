//! Whether and how a rule applies, once its left-hand side is matched.

use vstd::prelude::*;
use crate::apply_parts::{
    alternative_applied, apply_rhs_alternative, keep_undecided, trivial_application,
    trivially_applied, undecided, Applicability, ApplicabilityV, RuleScope, RuleScopeV,
};
use crate::assoc::assoc;
use crate::construct::{constructor_like, variables_of};
use crate::freshen::{
    find_missing_variables, fresh_existentials, freshen_existentials, missing_variables,
};
use crate::index::{extend_unique, push_unique, unique_extension};
use crate::kernel::{result_view, Kernel};
use crate::model::{contains, deep, group_deep, Value};
use crate::normalize::add_unique;
use crate::pattern::{
    extract_substitution, extracted, pattern_variables, quantify_introduced_variables,
};
use crate::predicate::{lemma_predicate_view, Predicate, PredicateV};
use crate::predicates::{
    conjunctively_contains_alpha_equivalent, holds_alpha_equal, introduced_quantified,
    predicates_substituted, substitute_predicates,
};
use crate::rewrite_types::{
    IndeterminateReason, IndeterminateReasonV, PartialRuleMatch, PartialRuleMatchV,
    RhsAlternativeAttempt, RhsAlternativeAttemptV, RuleApplication, RuleApplicationV, RuleAttempt,
    RuleAttemptV, TrivialApplication, TrivialApplicationV,
};
use crate::rule::{RewriteRule, RewriteRuleV, RhsAlternative, RhsAlternativeV, RuleRhs, RuleRhsV};
use crate::solver::{
    Satisfiability, SatisfiabilityV, SmtError, SmtErrorV, SmtSolver, Validity, ValidityV,
};
use crate::substitution::{compose, composed, Substitution, SubstitutionV};
use crate::term::{lemma_term_view, Term, TermV, Variable, VariableV};
use crate::truth::{conjunction_truth, predicates_truth, Truth};

verus! {

broadcast use group_deep;

/// A rule that unifies without a result, as what trying the rule gives.
pub open spec fn only_trivial(rule: RewriteRuleV, applicability: PredicateV) -> RuleAttemptV {
    RuleAttemptV::Unified {
        applied: Seq::empty(),
        trivial: seq![trivially_applied(rule, applicability)],
    }
}

fn make_only_trivial(rule: &RewriteRule, applicability: &Predicate) -> (result: RuleAttempt)
    ensures
        result@ == only_trivial(rule@, applicability@),
{
    let mut trivial: Vec<TrivialApplication> = Vec::new();
    trivial.push(trivial_application(rule, applicability));
    assert(deep(trivial@) =~= seq![trivially_applied(rule@, applicability@)]);
    RuleAttempt::Unified { applied: Vec::new(), trivial }
}

// ---------------------------------------------------------------------------------------------
// The conditions of a match
// ---------------------------------------------------------------------------------------------
/// A match in two parts: `kept` with the bindings from `from` on of variables of the rule, and
/// `conditions` with an equality for every other binding, and with what makes its value defined.
pub open spec fn configuration_split<K: Kernel>(
    kernel: &K,
    bindings: SubstitutionV,
    variables: Seq<VariableV>,
    kept: SubstitutionV,
    conditions: Seq<PredicateV>,
    from: int,
) -> (SubstitutionV, Seq<PredicateV>)
    decreases bindings.len() - from,
{
    if from >= bindings.len() {
        (kept, conditions)
    } else {
        let (variable, value) = bindings[from];
        if variables.contains(variable) {
            configuration_split(
                kernel,
                bindings,
                variables,
                kept.push(bindings[from]),
                conditions,
                from + 1,
            )
        } else {
            configuration_split(
                kernel,
                bindings,
                variables,
                kept,
                unique_extension(
                    push_unique(
                        conditions,
                        PredicateV::Equals(TermV::Variable(variable), value),
                    ),
                    kernel.ceil(value),
                ),
                from + 1,
            )
        }
    }
}

fn split_configuration<K: Kernel>(
    kernel: &K,
    substitution: &Substitution,
    variables: &Vec<Variable>,
    conditions: Vec<Predicate>,
) -> (result: (Substitution, Vec<Predicate>))
    ensures
        result.deep_view() == configuration_split(
            kernel,
            substitution@,
            deep(variables@),
            Seq::empty(),
            deep(conditions@),
            0,
        ),
{
    let mut bindings: Vec<(Variable, Term)> = Vec::new();
    let mut found = conditions;
    let mut i: usize = 0;
    while i < substitution.bindings.len()
        invariant
            i <= substitution.bindings.len(),
            configuration_split(
                kernel,
                substitution@,
                deep(variables@),
                Seq::empty(),
                deep(conditions@),
                0,
            ) == configuration_split(
                kernel,
                substitution@,
                deep(variables@),
                deep(bindings@),
                deep(found@),
                i as int,
            ),
        decreases substitution.bindings.len() - i,
    {
        assert(deep(substitution.bindings@)[i as int]
            == substitution.bindings[i as int].deep_view());
        let variable = &substitution.bindings[i].0;
        let value = &substitution.bindings[i].1;
        if contains(variables, variable) {
            bindings.push(substitution.bindings[i].duplicate());
        } else {
            add_unique(
                &mut found,
                Predicate::equality(Term::variable(variable.duplicate()), value.duplicate()),
            );
            extend_unique(&mut found, kernel.ceil_term(value));
        }
        i += 1;
    }
    (Substitution { bindings }, found)
}

/// The conditions of a match that are open, unless they contradict what is known.
pub open spec fn conditions_open<'a, K: Kernel, S: SmtSolver>(
    scope: RuleScopeV<'a, K, S>,
    conditions: Seq<PredicateV>,
) -> Result<Seq<PredicateV>, RuleAttemptV> {
    match scope.simplified(conditions, scope.path_knowledge()) {
        Err(reason) => Err(RuleAttemptV::Indeterminate(reason)),
        Ok(conditions) => if conjunction_truth(conditions) is False {
            Err(RuleAttemptV::NotApplicable)
        } else {
            Ok(undecided(conditions, Seq::empty(), Seq::empty(), 0))
        },
    }
}

fn keep_open_conditions<'a, K: Kernel, S: SmtSolver>(
    scope: &RuleScope<'a, K, S>,
    conditions: &Vec<Predicate>,
) -> (result: Result<Vec<Predicate>, RuleAttempt>)
    ensures
        result_view(result) == conditions_open(scope@, deep(conditions@)),
{
    match scope.simplify(conditions, &scope.path_knowledge()) {
        Err(reason) => Err(RuleAttempt::Indeterminate(reason)),
        Ok(conditions) => {
            if matches!(predicates_truth(&conditions), Truth::False) {
                return Err(RuleAttempt::NotApplicable);
            }
            let none: Vec<Predicate> = Vec::new();
            Ok(keep_undecided(&conditions, &none))
        },
    }
}

/// `found` with what makes the values from `from` on defined; a variable always is.
pub open spec fn values_defined<K: Kernel>(
    kernel: &K,
    bindings: SubstitutionV,
    found: Seq<PredicateV>,
    from: int,
) -> Seq<PredicateV>
    decreases bindings.len() - from,
{
    if from >= bindings.len() {
        found
    } else {
        let next = if bindings[from].1 is Variable {
            found
        } else {
            unique_extension(found, kernel.ceil(bindings[from].1))
        };
        values_defined(kernel, bindings, next, from + 1)
    }
}

fn define_values<K: Kernel>(kernel: &K, substitution: &Substitution) -> (result: Vec<Predicate>)
    ensures
        deep(result@) == values_defined(kernel, substitution@, Seq::empty(), 0),
{
    let mut found: Vec<Predicate> = Vec::new();
    let mut i: usize = 0;
    while i < substitution.bindings.len()
        invariant
            i <= substitution.bindings.len(),
            values_defined(kernel, substitution@, Seq::empty(), 0) == values_defined(
                kernel,
                substitution@,
                deep(found@),
                i as int,
            ),
        decreases substitution.bindings.len() - i,
    {
        assert(deep(substitution.bindings@)[i as int].1 == substitution.bindings[i as int].1@);
        proof {
            lemma_term_view(substitution.bindings[i as int].1);
        }
        if !matches!(&substitution.bindings[i].1, Term::Variable(_)) {
            extend_unique(&mut found, kernel.ceil_term(&substitution.bindings[i].1));
        }
        i += 1;
    }
    found
}

/// The conditions of a match with those under which its values are defined. Where a value is not
/// defined, the rule unifies without a result.
pub open spec fn conditions_defined<'a, K: Kernel, S: SmtSolver>(
    scope: RuleScopeV<'a, K, S>,
    substitution: SubstitutionV,
    conditions: Seq<PredicateV>,
) -> Result<Seq<PredicateV>, RuleAttemptV> {
    match scope.simplified(
        values_defined(&scope.definition.kernel, substitution, Seq::empty(), 0),
        unique_extension(scope.path_knowledge(), conditions),
    ) {
        Err(reason) => Err(RuleAttemptV::Indeterminate(reason)),
        Ok(definedness) => if conjunction_truth(definedness) is False {
            Err(
                only_trivial(
                    scope.rule,
                    introduced_quantified(pattern_variables(scope.pattern), conditions),
                ),
            )
        } else {
            Ok(
                unique_extension(
                    conditions,
                    undecided(definedness, Seq::empty(), Seq::empty(), 0),
                ),
            )
        },
    }
}

#[verifier::spinoff_prover]
fn add_value_definedness<'a, K: Kernel, S: SmtSolver>(
    scope: &RuleScope<'a, K, S>,
    substitution: &Substitution,
    conditions: Vec<Predicate>,
) -> (result: Result<Vec<Predicate>, RuleAttempt>)
    ensures
        result_view(result) == conditions_defined(scope@, substitution@, deep(conditions@)),
{
    let definedness = define_values(&scope.definition.kernel, substitution);
    let mut knowledge = scope.path_knowledge();
    extend_unique(&mut knowledge, conditions.duplicate());
    match scope.simplify(&definedness, &knowledge) {
        Err(reason) => Err(RuleAttempt::Indeterminate(reason)),
        Ok(definedness) => {
            if matches!(predicates_truth(&definedness), Truth::False) {
                let applicability = quantify_introduced_variables(scope.pattern, conditions);
                return Err(make_only_trivial(scope.rule, &applicability));
            }
            let none: Vec<Predicate> = Vec::new();
            let mut all = conditions;
            extend_unique(&mut all, keep_undecided(&definedness, &none));
            Ok(all)
        },
    }
}

/// Nothing where the conditions of a match can hold together with the constraints of the pattern,
/// else what trying the rule gives.
pub open spec fn conditions_refused<'a, K: Kernel, S: SmtSolver>(
    scope: RuleScopeV<'a, K, S>,
    conditions: Seq<PredicateV>,
) -> Option<RuleAttemptV> {
    if conditions.len() == 0 {
        None
    } else {
        match scope.solver.satisfiability(
            unique_extension(scope.pattern.constraints, conditions),
            Seq::empty(),
        ) {
            Ok(SatisfiabilityV::Sat) => None,
            Ok(SatisfiabilityV::Unsat) => Some(RuleAttemptV::NotApplicable),
            Ok(SatisfiabilityV::Unknown(reason)) => Some(
                RuleAttemptV::Indeterminate(scope.unsolved(SmtErrorV::Unknown(reason))),
            ),
            Err(error) => Some(RuleAttemptV::Indeterminate(scope.unsolved(error))),
        }
    }
}

fn refuse_conditions<'a, K: Kernel, S: SmtSolver>(
    scope: &RuleScope<'a, K, S>,
    conditions: &Vec<Predicate>,
) -> (result: Option<RuleAttempt>)
    ensures
        result.deep_view() == conditions_refused(scope@, deep(conditions@)),
{
    if conditions.len() == 0 {
        return None;
    }
    let mut narrowed = scope.pattern.constraints.duplicate();
    extend_unique(&mut narrowed, conditions.duplicate());
    match scope.solver.is_sat(&narrowed, &Substitution::new()) {
        Ok(Satisfiability::Sat) => None,
        Ok(Satisfiability::Unsat) => Some(RuleAttempt::NotApplicable),
        Ok(Satisfiability::Unknown(reason)) => Some(
            RuleAttempt::Indeterminate(scope.unsolved(SmtError::Unknown(reason))),
        ),
        Err(error) => Some(RuleAttempt::Indeterminate(scope.unsolved(error))),
    }
}

/// The bindings of the rule's variables and the open conditions of a match.
pub open spec fn match_settled<'a, K: Kernel, S: SmtSolver>(
    scope: RuleScopeV<'a, K, S>,
    substitution: SubstitutionV,
    inherited: Seq<PredicateV>,
    conditions: Seq<PredicateV>,
) -> Result<(SubstitutionV, Seq<PredicateV>), RuleAttemptV> {
    let (substitution, conditions) = configuration_split(
        &scope.definition.kernel,
        substitution,
        variables_of(scope.rule.lhs),
        Seq::empty(),
        conditions,
        0,
    );
    match conditions_open(scope, inherited + conditions) {
        Err(attempt) => Err(attempt),
        Ok(conditions) => match conditions_defined(scope, substitution, conditions) {
            Err(attempt) => Err(attempt),
            Ok(conditions) => match conditions_refused(scope, conditions) {
                Some(attempt) => Err(attempt),
                None => Ok((substitution, conditions)),
            },
        },
    }
}

/// Settle the bindings and the conditions of a match.
#[verifier::spinoff_prover]
pub(crate) fn settle_match<'a, K: Kernel, S: SmtSolver>(
    scope: &RuleScope<'a, K, S>,
    substitution: Substitution,
    inherited: Vec<Predicate>,
    conditions: Vec<Predicate>,
) -> (result: Result<(Substitution, Vec<Predicate>), RuleAttempt>)
    ensures
        result_view(result) == match_settled(
            scope@,
            substitution@,
            deep(inherited@),
            deep(conditions@),
        ),
{
    let (bound, found) = split_configuration(
        &scope.definition.kernel,
        &substitution,
        &scope.rule.lhs.variables(),
        conditions,
    );
    let mut all = inherited;
    let mut found = found;
    all.append(&mut found);
    let open = match keep_open_conditions(scope, &all) {
        Ok(open) => open,
        Err(attempt) => {
            return Err(attempt);
        },
    };
    let open = match add_value_definedness(scope, &bound, open) {
        Ok(open) => open,
        Err(attempt) => {
            return Err(attempt);
        },
    };
    match refuse_conditions(scope, &open) {
        Some(attempt) => Err(attempt),
        None => Ok((bound, open)),
    }
}

// ---------------------------------------------------------------------------------------------
// Requirements
// ---------------------------------------------------------------------------------------------
/// What is known where a match holds.
pub open spec fn match_knowledge<'a, K: Kernel, S: SmtSolver>(
    scope: RuleScopeV<'a, K, S>,
    conditions: Seq<PredicateV>,
) -> Seq<PredicateV> {
    unique_extension(scope.path_knowledge(), conditions)
}

fn know_match<'a, K: Kernel, S: SmtSolver>(
    scope: &RuleScope<'a, K, S>,
    conditions: &Vec<Predicate>,
) -> (result: Vec<Predicate>)
    ensures
        deep(result@) == match_knowledge(scope@, deep(conditions@)),
{
    let mut knowledge = scope.path_knowledge();
    extend_unique(&mut knowledge, conditions.duplicate());
    knowledge
}

/// The requirements of the rule, simplified, unless they do not hold.
pub open spec fn requirements<'a, K: Kernel, S: SmtSolver>(
    scope: RuleScopeV<'a, K, S>,
    substitution: SubstitutionV,
    conditions: Seq<PredicateV>,
) -> Result<Seq<PredicateV>, RuleAttemptV> {
    match scope.simplified(
        predicates_substituted(scope.rule.requires, substitution),
        match_knowledge(scope, conditions),
    ) {
        Err(reason) => Err(RuleAttemptV::Indeterminate(reason)),
        Ok(required) => if conjunction_truth(required) is False {
            Err(RuleAttemptV::NotApplicable)
        } else {
            Ok(required)
        },
    }
}

/// Simplify the requirements of the rule.
pub(crate) fn simplify_requirements<'a, K: Kernel, S: SmtSolver>(
    scope: &RuleScope<'a, K, S>,
    substitution: &Substitution,
    conditions: &Vec<Predicate>,
) -> (result: Result<Vec<Predicate>, RuleAttempt>)
    ensures
        result_view(result) == requirements(scope@, substitution@, deep(conditions@)),
{
    let required = substitute_predicates(&scope.rule.requires, substitution);
    match scope.simplify(&required, &know_match(scope, conditions)) {
        Err(reason) => Err(RuleAttempt::Indeterminate(reason)),
        Ok(required) => if matches!(predicates_truth(&required), Truth::False) {
            Err(RuleAttempt::NotApplicable)
        } else {
            Ok(required)
        },
    }
}

/// `found` with the bindings from `from` on of variables of the rule that have no value yet.
pub open spec fn new_bindings(
    bindings: SubstitutionV,
    variables: Seq<VariableV>,
    substitution: SubstitutionV,
    found: SubstitutionV,
    from: int,
) -> SubstitutionV
    decreases bindings.len() - from,
{
    if from >= bindings.len() {
        found
    } else {
        let next = if variables.contains(bindings[from].0) && assoc(
            substitution,
            bindings[from].0,
        ) is None {
            found.push(bindings[from])
        } else {
            found
        };
        new_bindings(bindings, variables, substitution, next, from + 1)
    }
}

fn find_new_bindings(
    bindings: &Substitution,
    variables: &Vec<Variable>,
    substitution: &Substitution,
) -> (result: Substitution)
    ensures
        result@ == new_bindings(
            bindings@,
            deep(variables@),
            substitution@,
            Seq::empty(),
            0,
        ),
{
    let mut found: Vec<(Variable, Term)> = Vec::new();
    let mut i: usize = 0;
    while i < bindings.bindings.len()
        invariant
            i <= bindings.bindings.len(),
            new_bindings(bindings@, deep(variables@), substitution@, Seq::empty(), 0)
                == new_bindings(
                bindings@,
                deep(variables@),
                substitution@,
                deep(found@),
                i as int,
            ),
        decreases bindings.bindings.len() - i,
    {
        assert(deep(bindings.bindings@)[i as int] == bindings.bindings[i as int].deep_view());
        if contains(variables, &bindings.bindings[i].0) && substitution.get(
            &bindings.bindings[i].0,
        ).is_none() {
            found.push(bindings.bindings[i].duplicate());
        }
        i += 1;
    }
    Substitution { bindings: found }
}

/// On a concrete term, the match with the variables bound that the conditions and the requirements
/// give a value, where they give one.
pub open spec fn match_completed<'a, K: Kernel, S: SmtSolver>(
    scope: RuleScopeV<'a, K, S>,
    substitution: SubstitutionV,
    conditions: Seq<PredicateV>,
    required: Seq<PredicateV>,
) -> Option<PartialRuleMatchV> {
    let all = unique_extension(conditions, required);
    let bindings = new_bindings(
        extracted(scope.definition.sort_graph@, None, all).0,
        variables_of(scope.rule.lhs),
        substitution,
        Seq::empty(),
        0,
    );
    if !constructor_like(scope.pattern.term) || bindings.len() == 0 {
        None
    } else {
        Some(
            PartialRuleMatchV {
                substitution: composed(bindings, substitution),
                conditions: predicates_substituted(all, bindings),
                remainder: Seq::empty(),
            },
        )
    }
}

/// Complete a match by what its conditions and requirements say of the rule's variables.
pub(crate) fn complete_match<'a, K: Kernel, S: SmtSolver>(
    scope: &RuleScope<'a, K, S>,
    substitution: &Substitution,
    conditions: &Vec<Predicate>,
    required: &Vec<Predicate>,
) -> (result: Option<PartialRuleMatch>)
    ensures
        result.deep_view() == match_completed(
            scope@,
            substitution@,
            deep(conditions@),
            deep(required@),
        ),
{
    if !scope.pattern.term.is_constructor_like() {
        return None;
    }
    let mut all = conditions.duplicate();
    extend_unique(&mut all, required.duplicate());
    let (bindings, _) = extract_substitution(&all, &scope.definition.sort_graph);
    let bindings = find_new_bindings(&bindings, &scope.rule.lhs.variables(), substitution);
    if bindings.is_empty() {
        return None;
    }
    Some(
        PartialRuleMatch {
            substitution: compose(&bindings, substitution),
            conditions: substitute_predicates(&all, &bindings),
            remainder: Vec::new(),
        },
    )
}

/// The requirements that are open, unless the solver refutes them or cannot tell.
pub open spec fn requirements_open<'a, K: Kernel, S: SmtSolver>(
    scope: RuleScopeV<'a, K, S>,
    conditions: Seq<PredicateV>,
    required: Seq<PredicateV>,
) -> Result<Seq<PredicateV>, RuleAttemptV> {
    let unclear = undecided(required, scope.pattern.constraints, Seq::empty(), 0);
    if unclear.len() == 0 {
        Ok(unclear)
    } else {
        match scope.solver.validity(match_knowledge(scope, conditions), Seq::empty(), unclear) {
            Ok(ValidityV::Valid) => Ok(Seq::empty()),
            Ok(ValidityV::Invalid) => Err(RuleAttemptV::NotApplicable),
            Ok(ValidityV::Indeterminate) => Ok(unclear),
            Err(SmtErrorV::Unavailable) => Err(
                RuleAttemptV::Indeterminate(
                    IndeterminateReasonV::Requires {
                        rule_id: scope.rule.attributes.unique_id,
                        predicates: unclear,
                    },
                ),
            ),
            Ok(ValidityV::InconsistentGroundTruth) => Err(
                RuleAttemptV::Indeterminate(
                    scope.unsolved(SmtErrorV::InconsistentGroundTruth),
                ),
            ),
            Ok(ValidityV::Unknown(reason)) => Err(
                RuleAttemptV::Indeterminate(scope.unsolved(SmtErrorV::Unknown(reason))),
            ),
            Err(error) => Err(RuleAttemptV::Indeterminate(scope.unsolved(error))),
        }
    }
}

#[verifier::spinoff_prover]
fn keep_open_requirements<'a, K: Kernel, S: SmtSolver>(
    scope: &RuleScope<'a, K, S>,
    conditions: &Vec<Predicate>,
    required: &Vec<Predicate>,
) -> (result: Result<Vec<Predicate>, RuleAttempt>)
    ensures
        result_view(result) == requirements_open(scope@, deep(conditions@), deep(required@)),
{
    let unclear = keep_undecided(required, &scope.pattern.constraints);
    if unclear.len() == 0 {
        return Ok(unclear);
    }
    match scope.solver.check_predicates(
        &know_match(scope, conditions),
        &Substitution::new(),
        &unclear,
    ) {
        Ok(Validity::Valid) => Ok(Vec::new()),
        Ok(Validity::Invalid) => Err(RuleAttempt::NotApplicable),
        Ok(Validity::Indeterminate) => Ok(unclear),
        Err(SmtError::Unavailable) => Err(
            RuleAttempt::Indeterminate(
                IndeterminateReason::Requires {
                    rule_id: scope.rule.attributes.unique_id.duplicate(),
                    predicates: unclear,
                },
            ),
        ),
        Ok(Validity::InconsistentGroundTruth) => Err(
            RuleAttempt::Indeterminate(scope.unsolved(SmtError::InconsistentGroundTruth)),
        ),
        Ok(Validity::Unknown(reason)) => Err(
            RuleAttempt::Indeterminate(scope.unsolved(SmtError::Unknown(reason))),
        ),
        Err(error) => Err(RuleAttempt::Indeterminate(scope.unsolved(error))),
    }
}

// ---------------------------------------------------------------------------------------------
// The outcomes of a rule
// ---------------------------------------------------------------------------------------------
/// The outcomes, each with what it ensures; nothing where the rule has no terms as outcomes.
pub open spec fn outcomes_of(rule: RewriteRuleV) -> Option<Seq<RhsAlternativeV>> {
    match rule.rhs {
        RuleRhsV::Term(term) => Some(seq![RhsAlternativeV { term, ensures: rule.ensures }]),
        RuleRhsV::Disjunction(alternatives) => Some(alternatives),
        _ => None,
    }
}

/// What the outcomes from `from` on give, behind what was found.
pub open spec fn outcomes_applied<'a, K: Kernel, S: SmtSolver>(
    scope: RuleScopeV<'a, K, S>,
    applicability: ApplicabilityV,
    outcomes: Seq<RhsAlternativeV>,
    known: Seq<PredicateV>,
    applied: Seq<RuleApplicationV>,
    trivial: Seq<TrivialApplicationV>,
    from: int,
) -> RuleAttemptV
    decreases outcomes.len() - from,
{
    if from >= outcomes.len() {
        RuleAttemptV::Unified { applied, trivial }
    } else {
        match alternative_applied(
            scope,
            applicability,
            outcomes[from].term,
            unique_extension(scope.rule.ensures, outcomes[from].ensures),
            known,
        ) {
            RhsAlternativeAttemptV::Applied(application) => outcomes_applied(
                scope,
                applicability,
                outcomes,
                known,
                applied.push(application),
                trivial,
                from + 1,
            ),
            RhsAlternativeAttemptV::Trivial => outcomes_applied(
                scope,
                applicability,
                outcomes,
                known,
                applied,
                trivial.push(trivially_applied(scope.rule, applicability.condition)),
                from + 1,
            ),
            RhsAlternativeAttemptV::Indeterminate(reason) => RuleAttemptV::Indeterminate(reason),
        }
    }
}

#[verifier::spinoff_prover]
fn apply_outcomes<'a, K: Kernel, S: SmtSolver>(
    scope: &RuleScope<'a, K, S>,
    applicability: &Applicability,
    outcomes: &Vec<RhsAlternative>,
    known: &Vec<Predicate>,
) -> (result: RuleAttempt)
    ensures
        result@ == outcomes_applied(
            scope@,
            applicability@,
            deep(outcomes@),
            deep(known@),
            Seq::empty(),
            Seq::empty(),
            0,
        ),
{
    let mut applied: Vec<RuleApplication> = Vec::new();
    let mut trivial: Vec<TrivialApplication> = Vec::new();
    let mut i: usize = 0;
    while i < outcomes.len()
        invariant
            i <= outcomes.len(),
            outcomes_applied(
                scope@,
                applicability@,
                deep(outcomes@),
                deep(known@),
                Seq::empty(),
                Seq::empty(),
                0,
            ) == outcomes_applied(
                scope@,
                applicability@,
                deep(outcomes@),
                deep(known@),
                deep(applied@),
                deep(trivial@),
                i as int,
            ),
        decreases outcomes.len() - i,
    {
        assert(deep(outcomes@)[i as int] == outcomes[i as int]@);
        let mut ensured = scope.rule.ensures.duplicate();
        extend_unique(&mut ensured, outcomes[i].ensures.duplicate());
        match apply_rhs_alternative(scope, applicability, &outcomes[i].term, &ensured, known) {
            RhsAlternativeAttempt::Applied(application) => {
                applied.push(application);
            },
            RhsAlternativeAttempt::Trivial => {
                trivial.push(trivial_application(scope.rule, &applicability.condition));
            },
            RhsAlternativeAttempt::Indeterminate(reason) => {
                return RuleAttempt::Indeterminate(reason);
            },
        }
        i += 1;
    }
    RuleAttempt::Unified { applied, trivial }
}

/// How the rule applies where the requirements that are open hold; nothing where the constraints of
/// the pattern say that it does not, or, on a concrete term, where a variable has no value.
pub open spec fn applicability_of<'a, K: Kernel, S: SmtSolver>(
    scope: RuleScopeV<'a, K, S>,
    substitution: SubstitutionV,
    conditions: Seq<PredicateV>,
    unclear: Seq<PredicateV>,
) -> Result<ApplicabilityV, RuleAttemptV> {
    let condition = introduced_quantified(
        pattern_variables(scope.pattern),
        conditions + unclear,
    );
    let missing = missing_variables(scope.rule.lhs, substitution);
    if !(condition is True) && holds_alpha_equal(
        scope.pattern.constraints,
        PredicateV::Not(Box::new(condition)),
        0,
    ) {
        Err(RuleAttemptV::NotApplicable)
    } else if constructor_like(scope.pattern.term) && missing.len() > 0 {
        Err(
            RuleAttemptV::Indeterminate(
                IndeterminateReasonV::Instantiation {
                    rule_id: scope.rule.attributes.unique_id,
                    missing_variables: missing,
                },
            ),
        )
    } else {
        Ok(
            ApplicabilityV {
                substitution,
                existentials: fresh_existentials(scope.rule, scope.pattern),
                match_conditions: conditions,
                unclear,
                condition,
            },
        )
    }
}

#[verifier::spinoff_prover]
fn find_applicability<'a, K: Kernel, S: SmtSolver>(
    scope: &RuleScope<'a, K, S>,
    substitution: Substitution,
    conditions: Vec<Predicate>,
    unclear: Vec<Predicate>,
) -> (result: Result<Applicability, RuleAttempt>)
    ensures
        match applicability_of(scope@, substitution@, deep(conditions@), deep(unclear@)) {
            Ok(applicability) => result is Ok && result->Ok_0@ == applicability,
            Err(attempt) => result is Err && result->Err_0@ == attempt,
        },
{
    let mut all = conditions.duplicate();
    let mut more = unclear.duplicate();
    all.append(&mut more);
    let condition = quantify_introduced_variables(scope.pattern, all);
    proof {
        lemma_predicate_view(condition);
    }
    if !matches!(&condition, Predicate::True) && conjunctively_contains_alpha_equivalent(
        &scope.pattern.constraints,
        &Predicate::negation(condition.duplicate()),
    ) {
        return Err(RuleAttempt::NotApplicable);
    }
    if scope.pattern.term.is_constructor_like() {
        let missing = find_missing_variables(&scope.rule.lhs, &substitution);
        if missing.len() > 0 {
            return Err(
                RuleAttempt::Indeterminate(
                    IndeterminateReason::Instantiation {
                        rule_id: scope.rule.attributes.unique_id.duplicate(),
                        missing_variables: missing,
                    },
                ),
            );
        }
    }
    Ok(
        Applicability {
            substitution,
            existentials: freshen_existentials(scope.rule, scope.pattern),
            match_conditions: conditions,
            unclear,
            condition,
        },
    )
}

/// What trying a rule gives, once its match is settled and its requirements are simplified.
pub open spec fn rule_finished<'a, K: Kernel, S: SmtSolver>(
    scope: RuleScopeV<'a, K, S>,
    substitution: SubstitutionV,
    conditions: Seq<PredicateV>,
    required: Seq<PredicateV>,
) -> RuleAttemptV {
    match requirements_open(scope, conditions, required) {
        Err(attempt) => attempt,
        Ok(unclear) => match applicability_of(scope, substitution, conditions, unclear) {
            Err(attempt) => attempt,
            Ok(applicability) => match outcomes_of(scope.rule) {
                Some(outcomes) => outcomes_applied(
                    scope,
                    applicability,
                    outcomes,
                    unique_extension(match_knowledge(scope, conditions), unclear),
                    Seq::empty(),
                    Seq::empty(),
                    0,
                ),
                None => if scope.rule.rhs is Bottom {
                    only_trivial(scope.rule, applicability.condition)
                } else {
                    RuleAttemptV::NotApplicable
                },
            },
        },
    }
}

/// Finish the application of a rule.
#[verifier::spinoff_prover]
pub(crate) fn finish_rule<'a, K: Kernel, S: SmtSolver>(
    scope: &RuleScope<'a, K, S>,
    substitution: Substitution,
    conditions: Vec<Predicate>,
    required: &Vec<Predicate>,
) -> (result: RuleAttempt)
    ensures
        result@ == rule_finished(scope@, substitution@, deep(conditions@), deep(required@)),
{
    let unclear = match keep_open_requirements(scope, &conditions, required) {
        Ok(unclear) => unclear,
        Err(attempt) => {
            return attempt;
        },
    };
    let mut known = know_match(scope, &conditions);
    extend_unique(&mut known, unclear.duplicate());
    let applicability = match find_applicability(scope, substitution, conditions, unclear) {
        Ok(applicability) => applicability,
        Err(attempt) => {
            return attempt;
        },
    };
    match &scope.rule.rhs {
        RuleRhs::Term(term) => {
            let mut outcomes: Vec<RhsAlternative> = Vec::new();
            outcomes.push(
                RhsAlternative {
                    term: term.duplicate(),
                    ensures: scope.rule.ensures.duplicate(),
                },
            );
            assert(deep(outcomes@) =~= outcomes_of((*scope.rule)@)->0);
            apply_outcomes(scope, &applicability, &outcomes, &known)
        },
        RuleRhs::Disjunction(alternatives) => apply_outcomes(
            scope,
            &applicability,
            alternatives,
            &known,
        ),
        RuleRhs::Bottom => make_only_trivial(scope.rule, &applicability.condition),
        RuleRhs::Top | RuleRhs::Predicates(_) => RuleAttempt::NotApplicable,
    }
}

} // verus!
