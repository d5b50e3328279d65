//! The parts of an equation's application that need no further simplification.

use vstd::prelude::*;
use crate::assoc::{assoc, assoc_get, assoc_push, assoc_pushed};
use crate::construct::variables_of;
use crate::definition::BackendDefinition;
use crate::domain::{check_concreteness, concreteness_violation, is_within, within};
use crate::index::{push_unique, unique_from, PredicateIndex};
use crate::diagnostic::{condition_diagnostic, condition_told, tell, told, BackendDiagnosticV};
use crate::kernel::{result_view, Kernel};
use crate::matcher::{
    definition_context, match_term_pairs_in_definition, match_terms_in_definition,
    term_pairs_matched, terms_matched,
};
use crate::matching::{MatchMode, MatchResult, MatchResultV};
use crate::model::{deep, group_deep, Value};
use crate::normalize::add_all_unique;
use crate::ops::sort_of;
use crate::predicate::{lemma_predicate_view, Predicate, PredicateV};
use crate::predicates::{predicates_substituted, substitute_predicates};
use crate::rule::{
    GroupsV, RewriteRule, RewriteRuleV, RuleRhs, RuleRhsV, TermIndex, TermIndexV, Theory, TheoryV,
};
use crate::simplify_types::{
    ConditionIndeterminacy, ConditionIndeterminacyV, EnsuresVerdict, EnsuresVerdictV, RuleCondition,
    RuleConditionV, SimplificationError, SimplificationErrorV,
};
use crate::solve::{match_collection_remainders_all_in_definition, remainders_matched};
use crate::solver::{SmtError, SmtErrorV, SmtSolver, Validity, ValidityV};
use crate::substitution::{substitute, substituted, Substitution, SubstitutionV};
use crate::term::{SymbolV, Term, TermV, Variable, VariableKind, VariableV};
use crate::truth::{conjunction_truth, predicates_truth, Truth};

verus! {

broadcast use group_deep;

/// What matching the left-hand side of an equation gives.
#[derive(Debug, PartialEq, Eq)]
pub enum EquationMatch {
    NotApplicable,
    Indeterminate,
    Found(Substitution),
}

/// The view of [`EquationMatch`].
pub enum EquationMatchV {
    NotApplicable,
    Indeterminate,
    Found(SubstitutionV),
}

impl View for EquationMatch {
    type V = EquationMatchV;

    open spec fn view(&self) -> EquationMatchV {
        match self {
            EquationMatch::NotApplicable => EquationMatchV::NotApplicable,
            EquationMatch::Indeterminate => EquationMatchV::Indeterminate,
            EquationMatch::Found(first) => EquationMatchV::Found(first@),
        }
    }
}

impl DeepView for EquationMatch {
    type V = EquationMatchV;

    open spec fn deep_view(&self) -> EquationMatchV {
        self@
    }
}

impl Value for EquationMatch {
    fn duplicate(&self) -> (copy: Self) {
        match self {
            EquationMatch::NotApplicable => EquationMatch::NotApplicable,
            EquationMatch::Indeterminate => EquationMatch::Indeterminate,
            EquationMatch::Found(first) => EquationMatch::Found(first.duplicate()),
        }
    }

    fn equals(&self, other: &Self) -> (same: bool) {
        match (self, other) {
            (EquationMatch::NotApplicable, EquationMatch::NotApplicable) => true,
            (EquationMatch::Indeterminate, EquationMatch::Indeterminate) => true,
            (EquationMatch::Found(first), EquationMatch::Found(other_first)) => first.equals(
                other_first,
            ),
            _ => false,
        }
    }
}

/// One outcome of an equation: a term, what it ensures, and whether it is no value at all.
#[derive(Debug, PartialEq, Eq)]
pub struct EquationAlternative {
    pub term: Term,
    pub ensures: Vec<Predicate>,
    pub bottom: bool,
}

/// The view of [`EquationAlternative`].
pub struct EquationAlternativeV {
    pub term: TermV,
    pub ensures: Seq<PredicateV>,
    pub bottom: bool,
}

impl View for EquationAlternative {
    type V = EquationAlternativeV;

    open spec fn view(&self) -> EquationAlternativeV {
        EquationAlternativeV {
            term: self.term@,
            ensures: deep(self.ensures@),
            bottom: self.bottom,
        }
    }
}

impl DeepView for EquationAlternative {
    type V = EquationAlternativeV;

    open spec fn deep_view(&self) -> EquationAlternativeV {
        self@
    }
}

impl Value for EquationAlternative {
    fn duplicate(&self) -> (copy: Self) {
        EquationAlternative {
            term: self.term.duplicate(),
            ensures: self.ensures.duplicate(),
            bottom: self.bottom,
        }
    }

    fn equals(&self, other: &Self) -> (same: bool) {
        self.term.equals(&other.term)
            && self.ensures.equals(&other.ensures)
            && self.bottom == other.bottom
    }
}

// ---------------------------------------------------------------------------------------------
// Groups of rules
// ---------------------------------------------------------------------------------------------
/// `found` with the rules from `from` on in the group of `priority`.
pub open spec fn grouped_rules(
    found: GroupsV,
    priority: u8,
    rules: Seq<RewriteRuleV>,
    from: int,
) -> GroupsV
    decreases rules.len() - from,
{
    if from >= rules.len() {
        found
    } else {
        grouped_rules(
            assoc_pushed::<u8, RewriteRuleV>(found, priority, rules[from]),
            priority,
            rules,
            from + 1,
        )
    }
}

/// `found` with the groups from `from` on merged in.
pub open spec fn merged_groups(found: GroupsV, groups: GroupsV, from: int) -> GroupsV
    decreases groups.len() - from,
{
    if from >= groups.len() {
        found
    } else {
        merged_groups(grouped_rules(found, groups[from].0, groups[from].1, 0), groups, from + 1)
    }
}

/// The groups at `index`.
pub open spec fn groups_at(theory: TheoryV, index: TermIndexV) -> GroupsV {
    match assoc(theory, index) {
        Some(groups) => groups,
        None => Seq::empty(),
    }
}

/// The rules for terms of `index`, by ascending priority: those at that index, and behind them
/// those whose left-hand side is a variable.
pub open spec fn groups_for(theory: TheoryV, index: TermIndexV) -> GroupsV {
    let own = merged_groups(Seq::empty(), groups_at(theory, index), 0);
    if index is Variable {
        own
    } else {
        merged_groups(own, groups_at(theory, TermIndexV::Variable), 0)
    }
}

fn merge_groups<'a>(
    found: &mut Vec<(u8, Vec<&'a RewriteRule>)>,
    groups: &'a Vec<(u8, Vec<RewriteRule>)>,
)
    ensures
        deep(final(found)@) == merged_groups(deep(old(found)@), deep(groups@), 0),
{
    let mut i: usize = 0;
    while i < groups.len()
        invariant
            i <= groups.len(),
            merged_groups(deep(old(found)@), deep(groups@), 0) == merged_groups(
                deep(found@),
                deep(groups@),
                i as int,
            ),
        decreases groups.len() - i,
    {
        assert(deep(groups@)[i as int] == (groups[i as int].0, deep(groups[i as int].1@)));
        let priority: u8 = groups[i].0;
        let rules = &groups[i].1;
        let ghost before = deep(found@);
        let mut k: usize = 0;
        while k < rules.len()
            invariant
                k <= rules.len(),
                grouped_rules(before, priority, deep(rules@), 0) == grouped_rules(
                    deep(found@),
                    priority,
                    deep(rules@),
                    k as int,
                ),
            decreases rules.len() - k,
        {
            assert(deep(rules@)[k as int] == rules[k as int]@);
            assoc_push(found, priority, &rules[k]);
            k += 1;
        }
        i += 1;
    }
}

/// The rules for terms of `index`, by ascending priority.
pub(crate) fn applicable_groups<'a>(theory: &'a Theory, index: &TermIndex) -> (result: Vec<
    (u8, Vec<&'a RewriteRule>),
>)
    ensures
        deep(result@) == groups_for(theory@, index@),
{
    let mut found: Vec<(u8, Vec<&'a RewriteRule>)> = Vec::new();
    if let Some(groups) = assoc_get(&theory.entries, index) {
        merge_groups(&mut found, groups);
    }
    if !matches!(index, TermIndex::Variable) {
        if let Some(groups) = assoc_get(&theory.entries, &TermIndex::Variable) {
            merge_groups(&mut found, groups);
        }
    }
    found
}

// ---------------------------------------------------------------------------------------------
// Matching
// ---------------------------------------------------------------------------------------------
/// The match of an equation's left-hand side. Of several decompositions of a collection the first
/// is taken: equations are functional, so that all of them are equivalent.
pub open spec fn equation_matched<K: Kernel>(
    definition: &BackendDefinition<K>,
    lhs: TermV,
    term: TermV,
) -> EquationMatchV {
    match terms_matched(definition_context(MatchMode::Evaluate, definition), lhs, term) {
        MatchResultV::Failed(_) => EquationMatchV::NotApplicable,
        MatchResultV::Success(substitution) => EquationMatchV::Found(substitution),
        MatchResultV::Indeterminate { substitution, remainder } => match remainders_matched(
            MatchMode::Evaluate,
            definition,
            substitution,
            remainder,
        ) {
            None => EquationMatchV::Indeterminate,
            Some(matches) => if matches.len() == 0 {
                EquationMatchV::NotApplicable
            } else {
                EquationMatchV::Found(matches[0])
            },
        },
    }
}

pub(crate) fn match_equation<K: Kernel>(
    definition: &BackendDefinition<K>,
    lhs: &Term,
    term: &Term,
) -> (result: EquationMatch)
    ensures
        result@ == equation_matched(definition, lhs@, term@),
{
    match match_terms_in_definition(MatchMode::Evaluate, definition, lhs, term) {
        MatchResult::Failed(_) => EquationMatch::NotApplicable,
        MatchResult::Success(substitution) => EquationMatch::Found(substitution),
        MatchResult::Indeterminate { substitution, remainder } => {
            match match_collection_remainders_all_in_definition(
                MatchMode::Evaluate,
                definition,
                substitution,
                &remainder,
            ) {
                None => EquationMatch::Indeterminate,
                Some(matches) => {
                    if matches.len() == 0 {
                        EquationMatch::NotApplicable
                    } else {
                        assert(deep(matches@)[0] == matches[0]@);
                        EquationMatch::Found(matches[0].duplicate())
                    }
                },
            }
        },
    }
}

/// The variables that a substitution binds.
pub open spec fn bound_variables(substitution: SubstitutionV) -> Seq<VariableV> {
    Seq::new(substitution.len(), |i: int| substitution[i].0)
}

pub(crate) fn bound_variable_list(substitution: &Substitution) -> (result: Vec<Variable>)
    ensures
        deep(result@) == bound_variables(substitution@),
{
    let mut result: Vec<Variable> = Vec::new();
    let mut i: usize = 0;
    while i < substitution.bindings.len()
        invariant
            i <= substitution.bindings.len(),
            result.len() == i,
            forall|j: int| 0 <= j < i ==> (#[trigger] result[j])@ == substitution.bindings[j].0@,
        decreases substitution.bindings.len() - i,
    {
        result.push(substitution.bindings[i].0.duplicate());
        i += 1;
    }
    assert(deep(result@) =~= bound_variables(substitution@));
    result
}

/// Whether a match of an equation binds its own variables only, each to a term of the kind that
/// the equation asks for.
pub open spec fn match_accepted(rule: RewriteRuleV, substitution: SubstitutionV) -> bool {
    within(bound_variables(substitution), variables_of(rule.lhs)) && concreteness_violation(
        rule,
        substitution,
    ) is None
}

pub(crate) fn accepts_match(rule: &RewriteRule, substitution: &Substitution) -> (result: bool)
    ensures
        result == match_accepted(rule@, substitution@),
{
    is_within(&bound_variable_list(substitution), &rule.lhs.variables()) && check_concreteness(
        rule,
        substitution,
    ).is_none()
}

/// `conditions` with the definedness of the terms that the element variables from `from` on are
/// bound to.
pub open spec fn defined_from<K: Kernel>(
    definition: BackendDefinition<K>,
    conditions: Seq<PredicateV>,
    substitution: SubstitutionV,
    from: int,
) -> Seq<PredicateV>
    decreases substitution.len() - from,
{
    if from >= substitution.len() {
        conditions
    } else {
        defined_from(
            definition,
            if substitution[from].0.kind is Element {
                unique_from(conditions, definition.kernel.ceil(substitution[from].1), 0)
            } else {
                conditions
            },
            substitution,
            from + 1,
        )
    }
}

/// The conditions of an equation under `substitution`.
///
/// Matching an element variable requires a defined value, even where the equation discards it. A
/// set variable may be bound to any pattern.
pub open spec fn match_conditions<K: Kernel>(
    definition: BackendDefinition<K>,
    required: Seq<PredicateV>,
    substitution: SubstitutionV,
) -> Seq<PredicateV> {
    defined_from(definition, predicates_substituted(required, substitution), substitution, 0)
}

pub(crate) fn equation_match_conditions<K: Kernel>(
    definition: &BackendDefinition<K>,
    required: &Vec<Predicate>,
    substitution: &Substitution,
) -> (result: Vec<Predicate>)
    ensures
        deep(result@) == match_conditions(*definition, deep(required@), substitution@),
{
    let mut conditions = substitute_predicates(required, substitution);
    let mut i: usize = 0;
    while i < substitution.bindings.len()
        invariant
            i <= substitution.bindings.len(),
            match_conditions(*definition, deep(required@), substitution@) == defined_from(
                *definition,
                deep(conditions@),
                substitution@,
                i as int,
            ),
        decreases substitution.bindings.len() - i,
    {
        assert(substitution@[i as int] == (
            substitution.bindings[i as int].0@,
            substitution.bindings[i as int].1@,
        ));
        if matches!(substitution.bindings[i].0.kind, VariableKind::Element) {
            let ceil = definition.kernel.ceil_term(&substitution.bindings[i].1);
            add_all_unique(&mut conditions, &ceil);
        }
        i += 1;
    }
    conditions
}

// ---------------------------------------------------------------------------------------------
// Alternatives of the right-hand side
// ---------------------------------------------------------------------------------------------
/// The outcomes of an equation whose condition holds.
pub open spec fn alternatives_of(
    rule: RewriteRuleV,
    term: TermV,
    substitution: SubstitutionV,
) -> Seq<EquationAlternativeV> {
    match rule.rhs {
        RuleRhsV::Term(rhs) => seq![
            EquationAlternativeV {
                term: substituted(rhs, substitution),
                ensures: rule.ensures,
                bottom: false,
            },
        ],
        RuleRhsV::Bottom => seq![
            EquationAlternativeV { term, ensures: rule.ensures, bottom: true },
        ],
        RuleRhsV::Disjunction(alternatives) => Seq::new(
            alternatives.len(),
            |i: int|
                EquationAlternativeV {
                    term: substituted(alternatives[i].term, substitution),
                    ensures: unique_from(rule.ensures, alternatives[i].ensures, 0),
                    bottom: false,
                },
        ),
        _ => Seq::empty(),
    }
}

pub(crate) fn equation_alternatives(
    rule: &RewriteRule,
    term: &Term,
    substitution: &Substitution,
) -> (result: Vec<EquationAlternative>)
    ensures
        deep(result@) == alternatives_of(rule@, term@, substitution@),
{
    let mut result: Vec<EquationAlternative> = Vec::new();
    match &rule.rhs {
        RuleRhs::Term(rhs) => {
            result.push(
                EquationAlternative {
                    term: substitute(rhs, substitution),
                    ensures: rule.ensures.duplicate(),
                    bottom: false,
                },
            );
        },
        RuleRhs::Bottom => {
            result.push(
                EquationAlternative {
                    term: term.duplicate(),
                    ensures: rule.ensures.duplicate(),
                    bottom: true,
                },
            );
        },
        RuleRhs::Disjunction(alternatives) => {
            let mut i: usize = 0;
            while i < alternatives.len()
                invariant
                    i <= alternatives.len(),
                    result.len() == i,
                    forall|j: int|
                        0 <= j < i ==> (#[trigger] result[j])@ == (EquationAlternativeV {
                            term: substituted(alternatives[j]@.term, substitution@),
                            ensures: unique_from(rule@.ensures, alternatives[j]@.ensures, 0),
                            bottom: false,
                        }),
                decreases alternatives.len() - i,
            {
                let mut ensured = rule.ensures.duplicate();
                add_all_unique(&mut ensured, &alternatives[i].ensures);
                result.push(
                    EquationAlternative {
                        term: substitute(&alternatives[i].term, substitution),
                        ensures: ensured,
                        bottom: false,
                    },
                );
                i += 1;
            }
        },
        _ => {},
    }
    assert(deep(result@) =~= alternatives_of(rule@, term@, substitution@));
    result
}

// ---------------------------------------------------------------------------------------------
// Verdicts
// ---------------------------------------------------------------------------------------------
/// What a solver's answer says of a rule's condition.
pub open spec fn condition_of_answer(
    rule_id: Seq<char>,
    answer: Result<ValidityV, SmtErrorV>,
) -> Result<RuleConditionV, SimplificationErrorV> {
    match answer {
        Ok(ValidityV::Valid) => Ok(RuleConditionV::Satisfied),
        Ok(ValidityV::Invalid) => Ok(RuleConditionV::Refuted),
        Ok(ValidityV::Indeterminate) => Ok(
            RuleConditionV::Indeterminate(ConditionIndeterminacyV::ImplicationIndeterminate),
        ),
        Ok(ValidityV::InconsistentGroundTruth) => Ok(
            RuleConditionV::Indeterminate(ConditionIndeterminacyV::InconsistentPathCondition),
        ),
        Ok(ValidityV::Unknown(message)) => Ok(
            RuleConditionV::Indeterminate(ConditionIndeterminacyV::SmtUnknown(message)),
        ),
        Err(SmtErrorV::Unavailable) => Ok(
            RuleConditionV::Indeterminate(ConditionIndeterminacyV::NoSolver),
        ),
        Err(error) => Err(SimplificationErrorV::Smt { rule_id, error }),
    }
}

/// What a solver's answer says of a rule's condition.
pub fn judge_condition(rule_id: &String, answer: Result<Validity, SmtError>) -> (result: Result<
    RuleCondition,
    SimplificationError,
>)
    ensures
        result_view(result) == condition_of_answer(rule_id@, result_view(answer)),
{
    match answer {
        Ok(Validity::Valid) => Ok(RuleCondition::Satisfied),
        Ok(Validity::Invalid) => Ok(RuleCondition::Refuted),
        Ok(Validity::Indeterminate) => Ok(
            RuleCondition::Indeterminate(ConditionIndeterminacy::ImplicationIndeterminate),
        ),
        Ok(Validity::InconsistentGroundTruth) => Ok(
            RuleCondition::Indeterminate(ConditionIndeterminacy::InconsistentPathCondition),
        ),
        Ok(Validity::Unknown(message)) => Ok(
            RuleCondition::Indeterminate(ConditionIndeterminacy::SmtUnknown(message)),
        ),
        Err(SmtError::Unavailable) => Ok(
            RuleCondition::Indeterminate(ConditionIndeterminacy::NoSolver),
        ),
        Err(error) => Err(SimplificationError::Smt { rule_id: rule_id.clone(), error }),
    }
}

/// What is known of a rule's condition: what the predicates themselves tell, what is assumed, and
/// what the solver says.
pub open spec fn condition_decided<S: SmtSolver>(
    solver: S,
    rule_id: Seq<char>,
    predicates: Seq<PredicateV>,
    known: Seq<PredicateV>,
) -> Result<RuleConditionV, SimplificationErrorV> {
    match conjunction_truth(predicates) {
        Truth::False => Ok(RuleConditionV::Refuted),
        Truth::True => Ok(RuleConditionV::Satisfied),
        Truth::Unknown => if within(predicates, known) {
            Ok(RuleConditionV::Satisfied)
        } else {
            condition_of_answer(rule_id, solver.validity(known, Seq::empty(), predicates))
        },
    }
}

/// What is told of a rule's condition: that the solver, where it is asked, cannot decide it.
pub open spec fn condition_doubt<S: SmtSolver>(
    solver: S,
    rule_id: Seq<char>,
    predicates: Seq<PredicateV>,
    known: Seq<PredicateV>,
) -> Option<BackendDiagnosticV> {
    if conjunction_truth(predicates) is Unknown && !within(predicates, known) {
        condition_told(rule_id, predicates, solver.validity(known, Seq::empty(), predicates))
    } else {
        None
    }
}

pub(crate) fn decide_condition<K: Kernel, S: SmtSolver>(
    kernel: &K,
    solver: &S,
    rule_id: &String,
    predicates: &Vec<Predicate>,
    known: &Vec<Predicate>,
) -> (result: Result<RuleCondition, SimplificationError>)
    ensures
        result_view(result) == condition_decided(
            *solver,
            rule_id@,
            deep(predicates@),
            deep(known@),
        ),
        told(
            *kernel,
            condition_doubt(*solver, rule_id@, deep(predicates@), deep(known@)),
        ),
{
    match predicates_truth(predicates) {
        Truth::False => Ok(RuleCondition::Refuted),
        Truth::True => Ok(RuleCondition::Satisfied),
        Truth::Unknown => {
            if is_within(predicates, known) {
                Ok(RuleCondition::Satisfied)
            } else {
                let answer = solver.check_predicates(known, &Substitution::new(), predicates);
                tell(kernel, condition_diagnostic(rule_id, predicates, &answer));
                judge_condition(rule_id, answer)
            }
        },
    }
}

/// What a solver's answer says of what an equation ensures.
pub open spec fn ensures_of_answer(
    rule_id: Seq<char>,
    ensured: Seq<PredicateV>,
    answer: Result<ValidityV, SmtErrorV>,
) -> Result<EnsuresVerdictV, SimplificationErrorV> {
    match answer {
        Ok(ValidityV::Invalid) => Ok(EnsuresVerdictV::Refuted),
        Ok(ValidityV::Valid) => Ok(EnsuresVerdictV::Holds),
        Ok(_) => Ok(EnsuresVerdictV::Open(ensured)),
        Err(SmtErrorV::Unavailable) => Ok(EnsuresVerdictV::Open(ensured)),
        Err(error) => Err(SimplificationErrorV::Smt { rule_id, error }),
    }
}

/// What a solver's answer says of what an equation ensures.
pub fn judge_ensures(
    rule_id: &String,
    ensured: Vec<Predicate>,
    answer: Result<Validity, SmtError>,
) -> (result: Result<EnsuresVerdict, SimplificationError>)
    ensures
        result_view(result) == ensures_of_answer(rule_id@, deep(ensured@), result_view(answer)),
{
    match answer {
        Ok(Validity::Invalid) => Ok(EnsuresVerdict::Refuted),
        Ok(Validity::Valid) => Ok(EnsuresVerdict::Holds),
        Ok(_) => Ok(EnsuresVerdict::Open(ensured)),
        Err(SmtError::Unavailable) => Ok(EnsuresVerdict::Open(ensured)),
        Err(error) => Err(SimplificationError::Smt { rule_id: rule_id.clone(), error }),
    }
}

/// What is known of what an equation ensures.
pub open spec fn ensures_decided<S: SmtSolver>(
    solver: S,
    rule_id: Seq<char>,
    ensured: Seq<PredicateV>,
    known: Seq<PredicateV>,
) -> Result<EnsuresVerdictV, SimplificationErrorV> {
    match conjunction_truth(ensured) {
        Truth::False => Ok(EnsuresVerdictV::Refuted),
        Truth::True => Ok(EnsuresVerdictV::Holds),
        Truth::Unknown => ensures_of_answer(
            rule_id,
            ensured,
            solver.validity(known, Seq::empty(), ensured),
        ),
    }
}

pub(crate) fn decide_ensures<S: SmtSolver>(
    solver: &S,
    rule_id: &String,
    ensured: Vec<Predicate>,
    known: &Vec<Predicate>,
) -> (result: Result<EnsuresVerdict, SimplificationError>)
    ensures
        result_view(result) == ensures_decided(
            *solver,
            rule_id@,
            deep(ensured@),
            deep(known@),
        ),
{
    match predicates_truth(&ensured) {
        Truth::False => Ok(EnsuresVerdict::Refuted),
        Truth::True => Ok(EnsuresVerdict::Holds),
        Truth::Unknown => {
            let answer = solver.check_predicates(known, &Substitution::new(), &ensured);
            judge_ensures(rule_id, ensured, answer)
        },
    }
}

// ---------------------------------------------------------------------------------------------
// Predicates
// ---------------------------------------------------------------------------------------------
/// `found` with the parts of a conjunction, nested ones too, each once.
pub open spec fn conjuncts_into(predicate: PredicateV, found: Seq<PredicateV>) -> Seq<PredicateV>
    decreases predicate, 0int,
{
    match predicate {
        PredicateV::And(inner) => all_conjuncts_into(inner, found, 0),
        _ => push_unique(found, predicate),
    }
}

/// `found` with the parts of the predicates from `from` on, each once.
pub open spec fn all_conjuncts_into(
    predicates: Seq<PredicateV>,
    found: Seq<PredicateV>,
    from: int,
) -> Seq<PredicateV>
    decreases predicates, predicates.len() - from,
{
    if 0 <= from < predicates.len() {
        all_conjuncts_into(predicates, conjuncts_into(predicates[from], found), from + 1)
    } else {
        found
    }
}

/// The parts of `predicates`, each once.
pub open spec fn conjuncts_of(predicates: Seq<PredicateV>) -> Seq<PredicateV> {
    all_conjuncts_into(predicates, Seq::empty(), 0)
}

/// Add the parts of a conjunction, nested ones too, each once.
pub(crate) fn extend_conjuncts(predicate: &Predicate, found: &mut PredicateIndex)
    requires
        old(found).well_formed(),
    ensures
        final(found).well_formed(),
        final(found)@ == conjuncts_into(predicate@, old(found)@),
    decreases predicate,
{
    proof {
        lemma_predicate_view(*predicate);
    }
    match predicate {
        Predicate::And(inner) => {
            extend_all_conjuncts(inner, found);
        },
        _ => {
            found.insert(predicate.duplicate());
        },
    }
}

pub(crate) fn extend_all_conjuncts(predicates: &Vec<Predicate>, found: &mut PredicateIndex)
    requires
        old(found).well_formed(),
    ensures
        final(found).well_formed(),
        final(found)@ == all_conjuncts_into(deep(predicates@), old(found)@, 0),
    decreases predicates,
{
    let mut i: usize = 0;
    while i < predicates.len()
        invariant
            i <= predicates.len(),
            found.well_formed(),
            all_conjuncts_into(deep(predicates@), old(found)@, 0) == all_conjuncts_into(
                deep(predicates@),
                found@,
                i as int,
            ),
        decreases predicates.len() - i,
    {
        assert(deep(predicates@)[i as int] == predicates[i as int]@);
        extend_conjuncts(&predicates[i], found);
        i += 1;
    }
}

/// The parts of `predicates` as an index.
pub(crate) fn predicate_conjunct_index(predicates: &Vec<Predicate>) -> (index: PredicateIndex)
    ensures
        index.well_formed(),
        index@ == conjuncts_of(deep(predicates@)),
{
    let mut index = PredicateIndex::new();
    extend_all_conjuncts(predicates, &mut index);
    index
}

/// `predicate` together with `constraints`, where there are any.
pub open spec fn with_constraints(
    constraints: Seq<PredicateV>,
    predicate: PredicateV,
) -> PredicateV {
    if constraints.len() == 0 {
        predicate
    } else {
        PredicateV::And(constraints.push(predicate))
    }
}

pub(crate) fn with_simplification_constraints(
    constraints: Vec<Predicate>,
    predicate: Predicate,
) -> (result: Predicate)
    ensures
        result@ == with_constraints(deep(constraints@), predicate@),
{
    if constraints.len() == 0 {
        predicate
    } else {
        let mut constraints = constraints;
        constraints.push(predicate);
        Predicate::conjunction(constraints)
    }
}

/// The pairs of terms in the same position of two predicates of the same shape, behind `found`.
pub open spec fn term_pairs_into(
    pattern: PredicateV,
    subject: PredicateV,
    found: Seq<(TermV, TermV)>,
) -> Option<Seq<(TermV, TermV)>>
    decreases pattern, 0int,
{
    match (pattern, subject) {
        (PredicateV::True, PredicateV::True) => Some(found),
        (PredicateV::False, PredicateV::False) => Some(found),
        (PredicateV::Term(left), PredicateV::Term(right)) => Some(found.push((left, right))),
        (PredicateV::Ceil(left), PredicateV::Ceil(right)) => Some(found.push((left, right))),
        (PredicateV::Floor(left), PredicateV::Floor(right)) => Some(found.push((left, right))),
        (PredicateV::Equals(a, b), PredicateV::Equals(c, d)) => Some(
            found.push((a, c)).push((b, d)),
        ),
        (PredicateV::In(a, b), PredicateV::In(c, d)) => Some(found.push((a, c)).push((b, d))),
        (PredicateV::Not(left), PredicateV::Not(right)) => term_pairs_into(*left, *right, found),
        (PredicateV::And(left), PredicateV::And(right)) => if left.len() == right.len() {
            all_term_pairs_into(left, right, found, 0)
        } else {
            None
        },
        (PredicateV::Or(left), PredicateV::Or(right)) => if left.len() == right.len() {
            all_term_pairs_into(left, right, found, 0)
        } else {
            None
        },
        (PredicateV::Implies(a, b), PredicateV::Implies(c, d)) => match term_pairs_into(
            *a,
            *c,
            found,
        ) {
            Some(found) => term_pairs_into(*b, *d, found),
            None => None,
        },
        (PredicateV::Iff(a, b), PredicateV::Iff(c, d)) => match term_pairs_into(*a, *c, found) {
            Some(found) => term_pairs_into(*b, *d, found),
            None => None,
        },
        (PredicateV::Exists(v, left), PredicateV::Exists(w, right)) => if v == w {
            term_pairs_into(*left, *right, found)
        } else {
            None
        },
        (PredicateV::Forall(v, left), PredicateV::Forall(w, right)) => if v == w {
            term_pairs_into(*left, *right, found)
        } else {
            None
        },
        _ => None,
    }
}

/// The pairs of terms of the predicates from `from` on.
pub open spec fn all_term_pairs_into(
    left: Seq<PredicateV>,
    right: Seq<PredicateV>,
    found: Seq<(TermV, TermV)>,
    from: int,
) -> Option<Seq<(TermV, TermV)>>
    decreases left, left.len() - from,
{
    if 0 <= from < left.len() {
        match term_pairs_into(left[from], right[from], found) {
            Some(found) => all_term_pairs_into(left, right, found, from + 1),
            None => None,
        }
    } else {
        Some(found)
    }
}

fn collect_predicate_term_pairs(
    pattern: &Predicate,
    subject: &Predicate,
    found: &mut Vec<(Term, Term)>,
) -> (same_shape: bool)
    ensures
        term_pairs_into(pattern@, subject@, deep(old(found)@)) == if same_shape {
            Some(deep(final(found)@))
        } else {
            None
        },
    decreases pattern,
{
    proof {
        lemma_predicate_view(*pattern);
        lemma_predicate_view(*subject);
    }
    match (pattern, subject) {
        (Predicate::True, Predicate::True) => true,
        (Predicate::False, Predicate::False) => true,
        (Predicate::Term(left), Predicate::Term(right)) => {
            found.push((left.duplicate(), right.duplicate()));
            true
        },
        (Predicate::Ceil(left), Predicate::Ceil(right)) => {
            found.push((left.duplicate(), right.duplicate()));
            true
        },
        (Predicate::Floor(left), Predicate::Floor(right)) => {
            found.push((left.duplicate(), right.duplicate()));
            true
        },
        (Predicate::Equals(a, b), Predicate::Equals(c, d)) => {
            found.push((a.duplicate(), c.duplicate()));
            found.push((b.duplicate(), d.duplicate()));
            true
        },
        (Predicate::In(a, b), Predicate::In(c, d)) => {
            found.push((a.duplicate(), c.duplicate()));
            found.push((b.duplicate(), d.duplicate()));
            true
        },
        (Predicate::Not(left), Predicate::Not(right)) => collect_predicate_term_pairs(
            left,
            right,
            found,
        ),
        (Predicate::And(left), Predicate::And(right)) => {
            left.len() == right.len() && collect_all_term_pairs(left, right, found)
        },
        (Predicate::Or(left), Predicate::Or(right)) => {
            left.len() == right.len() && collect_all_term_pairs(left, right, found)
        },
        (Predicate::Implies(a, b), Predicate::Implies(c, d)) => {
            collect_predicate_term_pairs(a, c, found) && collect_predicate_term_pairs(b, d, found)
        },
        (Predicate::Iff(a, b), Predicate::Iff(c, d)) => {
            collect_predicate_term_pairs(a, c, found) && collect_predicate_term_pairs(b, d, found)
        },
        (Predicate::Exists(v, left), Predicate::Exists(w, right)) => {
            v.equals(w) && collect_predicate_term_pairs(left, right, found)
        },
        (Predicate::Forall(v, left), Predicate::Forall(w, right)) => {
            v.equals(w) && collect_predicate_term_pairs(left, right, found)
        },
        _ => false,
    }
}

fn collect_all_term_pairs(
    left: &Vec<Predicate>,
    right: &Vec<Predicate>,
    found: &mut Vec<(Term, Term)>,
) -> (same_shape: bool)
    requires
        left.len() == right.len(),
    ensures
        all_term_pairs_into(deep(left@), deep(right@), deep(old(found)@), 0) == if same_shape {
            Some(deep(final(found)@))
        } else {
            None
        },
    decreases left,
{
    let mut i: usize = 0;
    while i < left.len()
        invariant
            i <= left.len(),
            left.len() == right.len(),
            all_term_pairs_into(deep(left@), deep(right@), deep(old(found)@), 0)
                == all_term_pairs_into(deep(left@), deep(right@), deep(found@), i as int),
        decreases left.len() - i,
    {
        assert(deep(left@)[i as int] == left[i as int]@);
        assert(deep(right@)[i as int] == right[i as int]@);
        if !collect_predicate_term_pairs(&left[i], &right[i], found) {
            return false;
        }
        i += 1;
    }
    true
}

/// The match of a predicate's shape and terms.
pub open spec fn predicate_matched<K: Kernel>(
    definition: &BackendDefinition<K>,
    pattern: PredicateV,
    subject: PredicateV,
) -> EquationMatchV {
    match term_pairs_into(pattern, subject, Seq::empty()) {
        None => EquationMatchV::NotApplicable,
        Some(pairs) => match term_pairs_matched(
            definition_context(MatchMode::Evaluate, definition),
            pairs,
        ) {
            MatchResultV::Success(substitution) => EquationMatchV::Found(substitution),
            MatchResultV::Failed(_) => EquationMatchV::NotApplicable,
            MatchResultV::Indeterminate { .. } => EquationMatchV::Indeterminate,
        },
    }
}

pub(crate) fn match_predicate<K: Kernel>(
    definition: &BackendDefinition<K>,
    pattern: &Predicate,
    subject: &Predicate,
) -> (result: EquationMatch)
    ensures
        result@ == predicate_matched(definition, pattern@, subject@),
{
    let mut pairs: Vec<(Term, Term)> = Vec::new();
    if !collect_predicate_term_pairs(pattern, subject, &mut pairs) {
        return EquationMatch::NotApplicable;
    }
    match match_term_pairs_in_definition(MatchMode::Evaluate, definition, &pairs) {
        MatchResult::Success(substitution) => EquationMatch::Found(substitution),
        MatchResult::Failed(_) => EquationMatch::NotApplicable,
        MatchResult::Indeterminate { .. } => EquationMatch::Indeterminate,
    }
}

/// The first term in a predicate.
pub open spec fn first_term(predicate: PredicateV) -> Option<TermV>
    decreases predicate, 0int,
{
    match predicate {
        PredicateV::True | PredicateV::False => None,
        PredicateV::Term(term) | PredicateV::Ceil(term) | PredicateV::Floor(term) => Some(term),
        PredicateV::Equals(left, _) | PredicateV::In(left, _) => Some(left),
        PredicateV::Not(inner) => first_term(*inner),
        PredicateV::Exists(_, inner) | PredicateV::Forall(_, inner) => first_term(*inner),
        PredicateV::And(inner) | PredicateV::Or(inner) => first_term_from(inner, 0),
        PredicateV::Implies(left, right) | PredicateV::Iff(left, right) => match first_term(
            *left,
        ) {
            Some(term) => Some(term),
            None => first_term(*right),
        },
    }
}

/// The first term in the predicates from `from` on.
pub open spec fn first_term_from(predicates: Seq<PredicateV>, from: int) -> Option<TermV>
    decreases predicates, predicates.len() - from,
{
    if 0 <= from < predicates.len() {
        match first_term(predicates[from]) {
            Some(term) => Some(term),
            None => first_term_from(predicates, from + 1),
        }
    } else {
        None
    }
}

pub(crate) fn first_predicate_term(predicate: &Predicate) -> (result: Option<&Term>)
    ensures
        result.deep_view() == first_term(predicate@),
    decreases predicate,
{
    proof {
        lemma_predicate_view(*predicate);
    }
    match predicate {
        Predicate::True | Predicate::False => None,
        Predicate::Term(term) | Predicate::Ceil(term) | Predicate::Floor(term) => Some(term),
        Predicate::Equals(left, _) | Predicate::In(left, _) => Some(left),
        Predicate::Not(inner) => first_predicate_term(inner),
        Predicate::Exists(_, inner) | Predicate::Forall(_, inner) => first_predicate_term(inner),
        Predicate::And(inner) | Predicate::Or(inner) => first_term_of_all(inner),
        Predicate::Implies(left, right) | Predicate::Iff(left, right) => {
            match first_predicate_term(left) {
                Some(term) => Some(term),
                None => first_predicate_term(right),
            }
        },
    }
}

fn first_term_of_all(predicates: &Vec<Predicate>) -> (result: Option<&Term>)
    ensures
        result.deep_view() == first_term_from(deep(predicates@), 0),
    decreases predicates,
{
    let mut i: usize = 0;
    while i < predicates.len()
        invariant
            i <= predicates.len(),
            first_term_from(deep(predicates@), 0) == first_term_from(
                deep(predicates@),
                i as int,
            ),
        decreases predicates.len() - i,
    {
        assert(deep(predicates@)[i as int] == predicates[i as int]@);
        let found = first_predicate_term(&predicates[i]);
        if found.is_some() {
            return found;
        }
        i += 1;
    }
    None
}

// ---------------------------------------------------------------------------------------------
// Effects of builtin functions
// ---------------------------------------------------------------------------------------------
/// The term that an application with an effect becomes: the empty K sequence, at the sort of the
/// application.
pub open spec fn effect_term<K: Kernel>(
    definition: BackendDefinition<K>,
    application: TermV,
) -> Result<TermV, SimplificationErrorV> {
    match definition.spec_symbol("dotk"@) {
        Some(dotk) => if dotk.sort_variables.len() == 0 && dotk.argument_sorts.len() == 0 {
            Ok(
                TermV::Application {
                    symbol: SymbolV { result_sort: sort_of(application), ..dotk },
                    sort_arguments: Seq::empty(),
                    arguments: Seq::empty(),
                },
            )
        } else {
            Err(
                SimplificationErrorV::InvalidBuiltinResultSymbol {
                    hook: "IO.logString"@,
                    symbol: "dotk"@,
                },
            )
        },
        None => Err(
            SimplificationErrorV::InvalidBuiltinResultSymbol {
                hook: "IO.logString"@,
                symbol: "dotk"@,
            },
        ),
    }
}

pub(crate) fn builtin_effect_result<K: Kernel>(
    definition: &BackendDefinition<K>,
    application: &Term,
) -> (result: Result<Term, SimplificationError>)
    ensures
        result_view(result) == effect_term(*definition, application@),
{
    match definition.symbol("dotk") {
        Some(dotk) => {
            if dotk.sort_variables.len() == 0 && dotk.argument_sorts.len() == 0 {
                let mut symbol = dotk.duplicate();
                symbol.result_sort = application.sort();
                Ok(Term::application(symbol, Vec::new(), Vec::new()))
            } else {
                Err(
                    SimplificationError::InvalidBuiltinResultSymbol {
                        hook: "IO.logString",
                        symbol: "dotk",
                    },
                )
            }
        },
        None => Err(
            SimplificationError::InvalidBuiltinResultSymbol {
                hook: "IO.logString",
                symbol: "dotk",
            },
        ),
    }
}

} // verus!
