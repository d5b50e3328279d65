//! Rules from axioms.

use vstd::prelude::*;
use crate::classify::{ArgumentBinder, ArgumentBinderV, ClassifiedAxiom, ClassifiedAxiomV};
use crate::construct::variables_of;
use crate::definition::BackendDefinition;
use crate::internalize::{
    term_internalized, variable_internalized, DefinitionError, DefinitionErrorV, RulePatternError,
    RulePatternErrorV,
};
use crate::kernel::{result_view, Kernel};
use crate::kore::{lemma_kore_view, KorePattern, KorePatternV, KoreVariable, KoreVariableV};
use crate::model::{contains, deep, group_deep, Value};
use crate::ops::{children, insert_sorted, inserted, lemma_child_smaller, sort_of, sorted};
use crate::predicate::{lemma_predicate_view, Predicate, PredicateV};
use crate::rule::{
    ComputedRuleAttributes, ComputedRuleAttributesV, RewriteRule, RewriteRuleV, RuleAttributes,
    RuleAttributesV, RuleKind, RuleRhs, RuleRhsV,
};
use crate::substitution::{bound, substitute, substituted, Substitution, SubstitutionV};
use crate::term::{
    lemma_term_view, FunctionType, SymbolType, Term, TermV, Variable, VariableKind, VariableV,
};

verus! {

broadcast use group_deep;

// ---------------------------------------------------------------------------------------------
// Renaming
// ---------------------------------------------------------------------------------------------
/// How the variables of an axiom are named in its rule: with a prefix that tells them from the
/// variables of a configuration. Existential variables have a prefix of their own.
pub struct Renaming<'a> {
    pub prefix: &'a str,
    pub existentials: &'a Vec<Variable>,
}

/// The view of a [`Renaming`].
pub struct RenamingV {
    pub prefix: Seq<char>,
    pub existentials: Seq<VariableV>,
}

impl<'a> View for Renaming<'a> {
    type V = RenamingV;

    open spec fn view(&self) -> RenamingV {
        RenamingV { prefix: self.prefix@, existentials: deep(self.existentials@) }
    }
}

/// A variable with a prefix to its name.
pub open spec fn prefixed_by(variable: VariableV, prefix: Seq<char>) -> VariableV {
    VariableV { name: prefix + variable.name, sort: variable.sort, kind: VariableKind::Element }
}

/// A variable under its name in a rule.
pub open spec fn variable_renamed(variable: VariableV, renaming: RenamingV) -> VariableV {
    if renaming.existentials.contains(variable) {
        prefixed_by(variable, "Ex#"@)
    } else {
        prefixed_by(variable, renaming.prefix)
    }
}

/// `found` with the variables from `from` on bound to their names in a rule.
pub open spec fn renamings_from(
    variables: Seq<VariableV>,
    renaming: RenamingV,
    found: SubstitutionV,
    from: int,
) -> SubstitutionV
    decreases variables.len() - from,
{
    if from >= variables.len() {
        found
    } else {
        renamings_from(
            variables,
            renaming,
            found.push(
                (variables[from], TermV::Variable(variable_renamed(variables[from], renaming))),
            ),
            from + 1,
        )
    }
}

/// A term under the names of a rule.
pub open spec fn term_renamed(term: TermV, renaming: RenamingV) -> TermV {
    substituted(term, renamings_from(variables_of(term), renaming, Seq::empty(), 0))
}

/// A predicate under the names of a rule.
pub open spec fn predicate_renamed(predicate: PredicateV, renaming: RenamingV) -> PredicateV
    decreases predicate, 0int,
{
    match predicate {
        PredicateV::True => PredicateV::True,
        PredicateV::False => PredicateV::False,
        PredicateV::Term(term) => PredicateV::Term(term_renamed(term, renaming)),
        PredicateV::Equals(left, right) => PredicateV::Equals(
            term_renamed(left, renaming),
            term_renamed(right, renaming),
        ),
        PredicateV::Ceil(term) => PredicateV::Ceil(term_renamed(term, renaming)),
        PredicateV::Floor(term) => PredicateV::Floor(term_renamed(term, renaming)),
        PredicateV::In(left, right) => PredicateV::In(
            term_renamed(left, renaming),
            term_renamed(right, renaming),
        ),
        PredicateV::Not(inner) => PredicateV::Not(Box::new(predicate_renamed(*inner, renaming))),
        PredicateV::And(inner) => PredicateV::And(predicates_renamed(inner, renaming)),
        PredicateV::Or(inner) => PredicateV::Or(predicates_renamed(inner, renaming)),
        PredicateV::Implies(left, right) => PredicateV::Implies(
            Box::new(predicate_renamed(*left, renaming)),
            Box::new(predicate_renamed(*right, renaming)),
        ),
        PredicateV::Iff(left, right) => PredicateV::Iff(
            Box::new(predicate_renamed(*left, renaming)),
            Box::new(predicate_renamed(*right, renaming)),
        ),
        PredicateV::Exists(variable, inner) => PredicateV::Exists(
            variable_renamed(variable, renaming),
            Box::new(predicate_renamed(*inner, renaming)),
        ),
        PredicateV::Forall(variable, inner) => PredicateV::Forall(
            variable_renamed(variable, renaming),
            Box::new(predicate_renamed(*inner, renaming)),
        ),
    }
}

/// The predicates under the names of a rule.
pub open spec fn predicates_renamed(predicates: Seq<PredicateV>, renaming: RenamingV) -> Seq<
    PredicateV,
>
    decreases predicates, 1int,
{
    Seq::new(
        predicates.len(),
        |i: int|
            if 0 <= i < predicates.len() {
                predicate_renamed(predicates[i], renaming)
            } else {
                arbitrary()
            },
    )
}

fn prefixed(variable: &Variable, prefix: &str) -> (result: Variable)
    ensures
        result@ == prefixed_by(variable@, prefix@),
{
    let mut name = prefix.to_owned();
    name.append(variable.name.as_str());
    Variable::new(name.as_str(), variable.sort.duplicate())
}

fn rename_variable<'a>(variable: &Variable, renaming: &Renaming<'a>) -> (result: Variable)
    ensures
        result@ == variable_renamed(variable@, renaming@),
{
    if contains(renaming.existentials, variable) {
        prefixed(variable, "Ex#")
    } else {
        prefixed(variable, renaming.prefix)
    }
}

fn rename_term<'a>(term: &Term, renaming: &Renaming<'a>) -> (result: Term)
    ensures
        result@ == term_renamed(term@, renaming@),
{
    let variables = term.variables();
    let mut bindings: Vec<(Variable, Term)> = Vec::new();
    let mut i: usize = 0;
    while i < variables.len()
        invariant
            i <= variables.len(),
            renamings_from(deep(variables@), renaming@, Seq::empty(), 0) == renamings_from(
                deep(variables@),
                renaming@,
                deep(bindings@),
                i as int,
            ),
        decreases variables.len() - i,
    {
        assert(deep(variables@)[i as int] == variables[i as int]@);
        bindings.push(
            (
                variables[i].duplicate(),
                Term::variable(rename_variable(&variables[i], renaming)),
            ),
        );
        i += 1;
    }
    substitute(term, &Substitution { bindings })
}

fn rename_predicate<'a>(predicate: &Predicate, renaming: &Renaming<'a>) -> (result: Predicate)
    ensures
        result@ == predicate_renamed(predicate@, renaming@),
    decreases predicate,
{
    proof {
        lemma_predicate_view(*predicate);
    }
    match predicate {
        Predicate::True => Predicate::constant(true),
        Predicate::False => Predicate::constant(false),
        Predicate::Term(term) => Predicate::of_term(rename_term(term, renaming)),
        Predicate::Equals(left, right) => Predicate::equality(
            rename_term(left, renaming),
            rename_term(right, renaming),
        ),
        Predicate::Ceil(term) => Predicate::ceil(rename_term(term, renaming)),
        Predicate::Floor(term) => Predicate::floor(rename_term(term, renaming)),
        Predicate::In(left, right) => Predicate::member(
            rename_term(left, renaming),
            rename_term(right, renaming),
        ),
        Predicate::Not(inner) => Predicate::negation(rename_predicate(inner, renaming)),
        Predicate::And(inner) => Predicate::conjunction(rename_predicates(inner, renaming)),
        Predicate::Or(inner) => Predicate::disjunction(rename_predicates(inner, renaming)),
        Predicate::Implies(left, right) => {
            let left = rename_predicate(left, renaming);
            let right = rename_predicate(right, renaming);
            Predicate::implication(left, right)
        },
        Predicate::Iff(left, right) => {
            let left = rename_predicate(left, renaming);
            let right = rename_predicate(right, renaming);
            Predicate::equivalence(left, right)
        },
        Predicate::Exists(variable, inner) => Predicate::for_some(
            rename_variable(variable, renaming),
            rename_predicate(inner, renaming),
        ),
        Predicate::Forall(variable, inner) => Predicate::for_all(
            rename_variable(variable, renaming),
            rename_predicate(inner, renaming),
        ),
    }
}

fn rename_predicates<'a>(predicates: &Vec<Predicate>, renaming: &Renaming<'a>) -> (result: Vec<
    Predicate,
>)
    ensures
        deep(result@) == predicates_renamed(deep(predicates@), renaming@),
    decreases predicates,
{
    let mut result: Vec<Predicate> = Vec::new();
    let mut i: usize = 0;
    while i < predicates.len()
        invariant
            i <= predicates.len(),
            result.len() == i,
            forall|j: int|
                0 <= j < i ==> (#[trigger] result[j])@ == predicate_renamed(
                    predicates[j]@,
                    renaming@,
                ),
        decreases predicates.len() - i,
    {
        result.push(rename_predicate(&predicates[i], renaming));
        i += 1;
    }
    assert(deep(result@) =~= predicates_renamed(deep(predicates@), renaming@));
    result
}

// ---------------------------------------------------------------------------------------------
// Sides of rules
// ---------------------------------------------------------------------------------------------
/// Whether a pattern stands for a term.
pub open spec fn is_term(pattern: KorePatternV) -> bool {
    pattern is Text || pattern is Variable || pattern is Application || pattern is DomainValue
        || pattern is AssociativeApplication
}

pub(crate) fn is_term_pattern(pattern: &KorePattern) -> (result: bool)
    ensures
        result == is_term(pattern@),
{
    proof {
        lemma_kore_view(*pattern);
    }
    match pattern {
        KorePattern::Text(_) => true,
        KorePattern::Variable(_) => true,
        KorePattern::Application { .. } => true,
        KorePattern::DomainValue { .. } => true,
        KorePattern::AssociativeApplication { .. } => true,
        _ => false,
    }
}

/// The predicate that a pattern is.
pub open spec fn predicate_internalized<K: Kernel>(
    definition: &BackendDefinition<K>,
    pattern: KorePatternV,
    parameters: Seq<Seq<char>>,
) -> Result<PredicateV, DefinitionErrorV>
    decreases pattern, 0int, 0int,
{
    match pattern {
        KorePatternV::Top => Ok(PredicateV::True),
        KorePatternV::Bottom => Ok(PredicateV::False),
        KorePatternV::Equals { left, right } => match (
            term_internalized(definition, *left, parameters),
            term_internalized(definition, *right, parameters),
        ) {
            (Ok(left), Ok(right)) => Ok(PredicateV::Equals(left, right)),
            (Err(error), _) => Err(error),
            (_, Err(error)) => Err(error),
        },
        KorePatternV::In { left, right } => match (
            term_internalized(definition, *left, parameters),
            term_internalized(definition, *right, parameters),
        ) {
            (Ok(left), Ok(right)) => Ok(PredicateV::In(left, right)),
            (Err(error), _) => Err(error),
            (_, Err(error)) => Err(error),
        },
        KorePatternV::Ceil { argument } => match term_internalized(
            definition,
            *argument,
            parameters,
        ) {
            Ok(term) => Ok(PredicateV::Ceil(term)),
            Err(error) => Err(error),
        },
        KorePatternV::Floor { argument } => match term_internalized(
            definition,
            *argument,
            parameters,
        ) {
            Ok(term) => Ok(PredicateV::Floor(term)),
            Err(error) => Err(error),
        },
        KorePatternV::Not { argument } => match predicate_internalized(
            definition,
            *argument,
            parameters,
        ) {
            Ok(inner) => Ok(PredicateV::Not(Box::new(inner))),
            Err(error) => Err(error),
        },
        KorePatternV::And { arguments } => match each_internalized(
            definition,
            arguments,
            parameters,
            Seq::empty(),
            0,
        ) {
            Ok(inner) => Ok(PredicateV::And(inner)),
            Err(error) => Err(error),
        },
        KorePatternV::Or { arguments } => match each_internalized(
            definition,
            arguments,
            parameters,
            Seq::empty(),
            0,
        ) {
            Ok(inner) => Ok(PredicateV::Or(inner)),
            Err(error) => Err(error),
        },
        KorePatternV::Implies { left, right } => match (
            predicate_internalized(definition, *left, parameters),
            predicate_internalized(definition, *right, parameters),
        ) {
            (Ok(left), Ok(right)) => Ok(PredicateV::Implies(Box::new(left), Box::new(right))),
            (Err(error), _) => Err(error),
            (_, Err(error)) => Err(error),
        },
        KorePatternV::Iff { left, right } => match (
            predicate_internalized(definition, *left, parameters),
            predicate_internalized(definition, *right, parameters),
        ) {
            (Ok(left), Ok(right)) => Ok(PredicateV::Iff(Box::new(left), Box::new(right))),
            (Err(error), _) => Err(error),
            (_, Err(error)) => Err(error),
        },
        KorePatternV::Exists { variable, body } => match (
            variable_internalized(definition, variable, parameters),
            predicate_internalized(definition, *body, parameters),
        ) {
            (Ok(variable), Ok(body)) => Ok(PredicateV::Exists(variable, Box::new(body))),
            (Err(error), _) => Err(error),
            (_, Err(error)) => Err(error),
        },
        KorePatternV::Forall { variable, body } => match (
            variable_internalized(definition, variable, parameters),
            predicate_internalized(definition, *body, parameters),
        ) {
            (Ok(variable), Ok(body)) => Ok(PredicateV::Forall(variable, Box::new(body))),
            (Err(error), _) => Err(error),
            (_, Err(error)) => Err(error),
        },
        KorePatternV::Next { .. } => Err(unsupported("next"@)),
        KorePatternV::Rewrites { .. } => Err(unsupported("rewrites"@)),
        KorePatternV::Mu { .. } => Err(unsupported("mu"@)),
        KorePatternV::Nu { .. } => Err(unsupported("nu"@)),
        _ => match term_internalized(definition, pattern, parameters) {
            Ok(term) => Ok(PredicateV::Term(term)),
            Err(error) => Err(error),
        },
    }
}

/// The error for a pattern that is no predicate.
pub open spec fn unsupported(name: Seq<char>) -> DefinitionErrorV {
    DefinitionErrorV::RulePattern(RulePatternErrorV::UnsupportedPredicate(name))
}

/// The predicates that the patterns from `from` on are, one for each, behind `found`.
pub open spec fn each_internalized<K: Kernel>(
    definition: &BackendDefinition<K>,
    patterns: Seq<KorePatternV>,
    parameters: Seq<Seq<char>>,
    found: Seq<PredicateV>,
    from: int,
) -> Result<Seq<PredicateV>, DefinitionErrorV>
    decreases patterns, 1int, patterns.len() - from,
{
    if !(0 <= from < patterns.len()) {
        Ok(found)
    } else {
        match predicate_internalized(definition, patterns[from], parameters) {
            Ok(predicate) => each_internalized(
                definition,
                patterns,
                parameters,
                found.push(predicate),
                from + 1,
            ),
            Err(error) => Err(error),
        }
    }
}

/// The predicates whose conjunction a pattern is, behind `found`.
pub open spec fn conjuncts_internalized<K: Kernel>(
    definition: &BackendDefinition<K>,
    pattern: KorePatternV,
    parameters: Seq<Seq<char>>,
    found: Seq<PredicateV>,
) -> Result<Seq<PredicateV>, DefinitionErrorV>
    decreases pattern, 0int, 0int,
{
    match pattern {
        KorePatternV::Top => Ok(found),
        KorePatternV::And { arguments } => all_conjuncts_internalized(
            definition,
            arguments,
            parameters,
            found,
            0,
        ),
        _ => match predicate_internalized(definition, pattern, parameters) {
            Ok(predicate) => Ok(found.push(predicate)),
            Err(error) => Err(error),
        },
    }
}

/// The same for the patterns from `from` on.
pub open spec fn all_conjuncts_internalized<K: Kernel>(
    definition: &BackendDefinition<K>,
    patterns: Seq<KorePatternV>,
    parameters: Seq<Seq<char>>,
    found: Seq<PredicateV>,
    from: int,
) -> Result<Seq<PredicateV>, DefinitionErrorV>
    decreases patterns, 1int, patterns.len() - from,
{
    if !(0 <= from < patterns.len()) {
        Ok(found)
    } else {
        match conjuncts_internalized(definition, patterns[from], parameters, found) {
            Ok(next) => all_conjuncts_internalized(
                definition,
                patterns,
                parameters,
                next,
                from + 1,
            ),
            Err(error) => Err(error),
        }
    }
}

#[verifier::spinoff_prover]
fn internalize_one_predicate<K: Kernel>(
    definition: &BackendDefinition<K>,
    pattern: &KorePattern,
    parameters: &Vec<String>,
) -> (result: Result<Predicate, DefinitionError>)
    ensures
        result_view(result) == predicate_internalized(definition, pattern@, deep(parameters@)),
    decreases pattern,
{
    proof {
        lemma_kore_view(*pattern);
    }
    match pattern {
        KorePattern::Top => Ok(Predicate::constant(true)),
        KorePattern::Bottom => Ok(Predicate::constant(false)),
        KorePattern::Equals { left, right } => match internalize_pair(
            definition,
            left,
            right,
            parameters,
        ) {
            Ok((left, right)) => Ok(Predicate::equality(left, right)),
            Err(error) => Err(error),
        },
        KorePattern::In { left, right } => match internalize_pair(
            definition,
            left,
            right,
            parameters,
        ) {
            Ok((left, right)) => Ok(Predicate::member(left, right)),
            Err(error) => Err(error),
        },
        KorePattern::Ceil { argument } => match definition.internalize_term(argument, parameters) {
            Ok(term) => Ok(Predicate::ceil(term)),
            Err(error) => Err(error),
        },
        KorePattern::Floor { argument } => match definition.internalize_term(argument, parameters) {
            Ok(term) => Ok(Predicate::floor(term)),
            Err(error) => Err(error),
        },
        KorePattern::Not { argument } => match internalize_one_predicate(
            definition,
            argument,
            parameters,
        ) {
            Ok(inner) => Ok(Predicate::negation(inner)),
            Err(error) => Err(error),
        },
        KorePattern::And { arguments } => match internalize_each(definition, arguments, parameters) {
            Ok(inner) => Ok(Predicate::conjunction(inner)),
            Err(error) => Err(error),
        },
        KorePattern::Or { arguments } => match internalize_each(definition, arguments, parameters) {
            Ok(inner) => Ok(Predicate::disjunction(inner)),
            Err(error) => Err(error),
        },
        KorePattern::Implies { left, right } => {
            let left = match internalize_one_predicate(definition, left, parameters) {
                Ok(left) => left,
                Err(error) => {
                    return Err(error);
                },
            };
            match internalize_one_predicate(definition, right, parameters) {
                Ok(right) => Ok(Predicate::implication(left, right)),
                Err(error) => Err(error),
            }
        },
        KorePattern::Iff { left, right } => {
            let left = match internalize_one_predicate(definition, left, parameters) {
                Ok(left) => left,
                Err(error) => {
                    return Err(error);
                },
            };
            match internalize_one_predicate(definition, right, parameters) {
                Ok(right) => Ok(Predicate::equivalence(left, right)),
                Err(error) => Err(error),
            }
        },
        KorePattern::Exists { variable, body } => {
            let variable = match definition.internalize_variable(variable, parameters) {
                Ok(variable) => variable,
                Err(error) => {
                    return Err(error);
                },
            };
            match internalize_one_predicate(definition, body, parameters) {
                Ok(body) => Ok(Predicate::for_some(variable, body)),
                Err(error) => Err(error),
            }
        },
        KorePattern::Forall { variable, body } => {
            let variable = match definition.internalize_variable(variable, parameters) {
                Ok(variable) => variable,
                Err(error) => {
                    return Err(error);
                },
            };
            match internalize_one_predicate(definition, body, parameters) {
                Ok(body) => Ok(Predicate::for_all(variable, body)),
                Err(error) => Err(error),
            }
        },
        KorePattern::Next { .. } => Err(not_a_predicate("next")),
        KorePattern::Rewrites { .. } => Err(not_a_predicate("rewrites")),
        KorePattern::Mu { .. } => Err(not_a_predicate("mu")),
        KorePattern::Nu { .. } => Err(not_a_predicate("nu")),
        _ => match definition.internalize_term(pattern, parameters) {
            Ok(term) => Ok(Predicate::of_term(term)),
            Err(error) => Err(error),
        },
    }
}

fn not_a_predicate(name: &'static str) -> (error: DefinitionError)
    ensures
        error@ == unsupported(name@),
{
    DefinitionError::RulePattern(RulePatternError::UnsupportedPredicate(name))
}

fn internalize_pair<K: Kernel>(
    definition: &BackendDefinition<K>,
    left: &KorePattern,
    right: &KorePattern,
    parameters: &Vec<String>,
) -> (result: Result<(Term, Term), DefinitionError>)
    ensures
        result_view(result) == (match (
            term_internalized(definition, left@, deep(parameters@)),
            term_internalized(definition, right@, deep(parameters@)),
        ) {
            (Ok(left), Ok(right)) => Ok((left, right)),
            (Err(error), _) => Err(error),
            (_, Err(error)) => Err(error),
        }),
{
    let left = match definition.internalize_term(left, parameters) {
        Ok(left) => left,
        Err(error) => {
            return Err(error);
        },
    };
    match definition.internalize_term(right, parameters) {
        Ok(right) => Ok((left, right)),
        Err(error) => Err(error),
    }
}

fn internalize_each<K: Kernel>(
    definition: &BackendDefinition<K>,
    patterns: &Vec<KorePattern>,
    parameters: &Vec<String>,
) -> (result: Result<Vec<Predicate>, DefinitionError>)
    ensures
        result_view(result) == each_internalized(
            definition,
            deep(patterns@),
            deep(parameters@),
            Seq::empty(),
            0,
        ),
    decreases patterns,
{
    let mut found: Vec<Predicate> = Vec::new();
    let mut i: usize = 0;
    while i < patterns.len()
        invariant
            i <= patterns.len(),
            each_internalized(definition, deep(patterns@), deep(parameters@), Seq::empty(), 0)
                == each_internalized(
                definition,
                deep(patterns@),
                deep(parameters@),
                deep(found@),
                i as int,
            ),
        decreases patterns.len() - i,
    {
        assert(deep(patterns@)[i as int] == patterns[i as int]@);
        match internalize_one_predicate(definition, &patterns[i], parameters) {
            Ok(predicate) => {
                found.push(predicate);
            },
            Err(error) => {
                return Err(error);
            },
        }
        i += 1;
    }
    Ok(found)
}

/// Internalize the predicates whose conjunction a pattern is, and put them behind `found`.
fn internalize_predicates<K: Kernel>(
    definition: &BackendDefinition<K>,
    pattern: &KorePattern,
    parameters: &Vec<String>,
    found: Vec<Predicate>,
) -> (result: Result<Vec<Predicate>, DefinitionError>)
    ensures
        result_view(result) == conjuncts_internalized(
            definition,
            pattern@,
            deep(parameters@),
            deep(found@),
        ),
    decreases pattern,
{
    proof {
        lemma_kore_view(*pattern);
    }
    match pattern {
        KorePattern::Top => Ok(found),
        KorePattern::And { arguments } => internalize_all_predicates(
            definition,
            arguments,
            parameters,
            found,
        ),
        _ => match internalize_one_predicate(definition, pattern, parameters) {
            Ok(predicate) => {
                let mut all = found;
                all.push(predicate);
                Ok(all)
            },
            Err(error) => Err(error),
        },
    }
}

fn internalize_all_predicates<K: Kernel>(
    definition: &BackendDefinition<K>,
    patterns: &Vec<KorePattern>,
    parameters: &Vec<String>,
    found: Vec<Predicate>,
) -> (result: Result<Vec<Predicate>, DefinitionError>)
    ensures
        result_view(result) == all_conjuncts_internalized(
            definition,
            deep(patterns@),
            deep(parameters@),
            deep(found@),
            0,
        ),
    decreases patterns,
{
    let mut all = found;
    let mut i: usize = 0;
    while i < patterns.len()
        invariant
            i <= patterns.len(),
            all_conjuncts_internalized(
                definition,
                deep(patterns@),
                deep(parameters@),
                deep(found@),
                0,
            ) == all_conjuncts_internalized(
                definition,
                deep(patterns@),
                deep(parameters@),
                deep(all@),
                i as int,
            ),
        decreases patterns.len() - i,
    {
        assert(deep(patterns@)[i as int] == patterns[i as int]@);
        match internalize_predicates(definition, &patterns[i], parameters, all) {
            Ok(next) => {
                all = next;
            },
            Err(error) => {
                return Err(error);
            },
        }
        i += 1;
    }
    Ok(all)
}

/// The terms and the predicates of a side of a rule.
pub type SideV = (Option<TermV>, Seq<PredicateV>);

/// A term with another in conjunction.
pub open spec fn with_term(so_far: Option<TermV>, term: TermV) -> Option<TermV> {
    match so_far {
        Some(first) => Some(TermV::And(Box::new(first), Box::new(term))),
        None => Some(term),
    }
}

/// The conjuncts of a pattern, taken into `so_far`: terms are joined, and predicates collected.
pub open spec fn side_internalized<K: Kernel>(
    definition: &BackendDefinition<K>,
    pattern: KorePatternV,
    parameters: Seq<Seq<char>>,
    so_far: SideV,
) -> Result<SideV, DefinitionErrorV>
    decreases pattern, 0int, 0int,
{
    match pattern {
        KorePatternV::And { arguments } => sides_internalized(
            definition,
            arguments,
            parameters,
            so_far,
            0,
        ),
        _ => if is_term(pattern) {
            match term_internalized(definition, pattern, parameters) {
                Ok(term) => Ok((with_term(so_far.0, term), so_far.1)),
                Err(error) => Err(error),
            }
        } else {
            match conjuncts_internalized(definition, pattern, parameters, so_far.1) {
                Ok(predicates) => Ok((so_far.0, predicates)),
                Err(error) => Err(error),
            }
        },
    }
}

/// The same for the patterns from `from` on.
pub open spec fn sides_internalized<K: Kernel>(
    definition: &BackendDefinition<K>,
    patterns: Seq<KorePatternV>,
    parameters: Seq<Seq<char>>,
    so_far: SideV,
    from: int,
) -> Result<SideV, DefinitionErrorV>
    decreases patterns, 1int, patterns.len() - from,
{
    if !(0 <= from < patterns.len()) {
        Ok(so_far)
    } else {
        match side_internalized(definition, patterns[from], parameters, so_far) {
            Ok(next) => sides_internalized(definition, patterns, parameters, next, from + 1),
            Err(error) => Err(error),
        }
    }
}

/// A side of a rule: the conjunction of its terms, and its predicates.
pub open spec fn rule_side<K: Kernel>(
    definition: &BackendDefinition<K>,
    pattern: KorePatternV,
    parameters: Seq<Seq<char>>,
) -> Result<(TermV, Seq<PredicateV>), DefinitionErrorV> {
    match side_internalized(definition, pattern, parameters, (None, Seq::empty())) {
        Err(error) => Err(error),
        Ok((Some(term), predicates)) => Ok((term, predicates)),
        Ok((None, _)) => Err(DefinitionErrorV::RulePattern(RulePatternErrorV::MissingTerm)),
    }
}

fn internalize_side<K: Kernel>(
    definition: &BackendDefinition<K>,
    pattern: &KorePattern,
    parameters: &Vec<String>,
    so_far: (Option<Term>, Vec<Predicate>),
) -> (result: Result<(Option<Term>, Vec<Predicate>), DefinitionError>)
    ensures
        result_view(result) == side_internalized(
            definition,
            pattern@,
            deep(parameters@),
            so_far.deep_view(),
        ),
    decreases pattern,
{
    proof {
        lemma_kore_view(*pattern);
    }
    if let KorePattern::And { arguments } = pattern {
        return internalize_sides(definition, arguments, parameters, so_far);
    }
    if is_term_pattern(pattern) {
        match definition.internalize_term(pattern, parameters) {
            Ok(term) => {
                let joined = match so_far.0 {
                    Some(first) => Term::and(first, term),
                    None => term,
                };
                Ok((Some(joined), so_far.1))
            },
            Err(error) => Err(error),
        }
    } else {
        match internalize_predicates(definition, pattern, parameters, so_far.1) {
            Ok(predicates) => Ok((so_far.0, predicates)),
            Err(error) => Err(error),
        }
    }
}

fn internalize_sides<K: Kernel>(
    definition: &BackendDefinition<K>,
    patterns: &Vec<KorePattern>,
    parameters: &Vec<String>,
    so_far: (Option<Term>, Vec<Predicate>),
) -> (result: Result<(Option<Term>, Vec<Predicate>), DefinitionError>)
    ensures
        result_view(result) == sides_internalized(
            definition,
            deep(patterns@),
            deep(parameters@),
            so_far.deep_view(),
            0,
        ),
    decreases patterns,
{
    let mut current = so_far;
    let mut i: usize = 0;
    while i < patterns.len()
        invariant
            i <= patterns.len(),
            sides_internalized(
                definition,
                deep(patterns@),
                deep(parameters@),
                so_far.deep_view(),
                0,
            ) == sides_internalized(
                definition,
                deep(patterns@),
                deep(parameters@),
                current.deep_view(),
                i as int,
            ),
        decreases patterns.len() - i,
    {
        assert(deep(patterns@)[i as int] == patterns[i as int]@);
        match internalize_side(definition, &patterns[i], parameters, current) {
            Ok(next) => {
                current = next;
            },
            Err(error) => {
                return Err(error);
            },
        }
        i += 1;
    }
    Ok(current)
}

/// Internalize a side of a rule.
pub(crate) fn internalize_rule_pattern<K: Kernel>(
    definition: &BackendDefinition<K>,
    pattern: &KorePattern,
    parameters: &Vec<String>,
) -> (result: Result<(Term, Vec<Predicate>), DefinitionError>)
    ensures
        result_view(result) == rule_side(definition, pattern@, deep(parameters@)),
{
    match internalize_side(definition, pattern, parameters, (None, Vec::new())) {
        Err(error) => Err(error),
        Ok((Some(term), predicates)) => Ok((term, predicates)),
        Ok((None, _)) => Err(DefinitionError::RulePattern(RulePatternError::MissingTerm)),
    }
}

// ---------------------------------------------------------------------------------------------
// Computed attributes
// ---------------------------------------------------------------------------------------------
/// `found` with what the head of a term adds: whether its symbol is associative or idempotent, and
/// its name where it may be undefined. The concatenation of maps and sets may be.
pub open spec fn head_noted(term: TermV, found: ComputedRuleAttributesV) -> ComputedRuleAttributesV {
    match term {
        TermV::Application { symbol, .. } => ComputedRuleAttributesV {
            contains_ac_symbols: found.contains_ac_symbols || symbol.attributes.associative
                || symbol.attributes.idempotent,
            undefined_symbols: if symbol.attributes.symbol_type == SymbolType::Function(
                FunctionType::Partial,
            ) {
                inserted::<String>(found.undefined_symbols, symbol.name)
            } else {
                found.undefined_symbols
            },
        },
        TermV::KMap { definition, .. } => ComputedRuleAttributesV {
            undefined_symbols: inserted::<String>(found.undefined_symbols, definition.concat),
            ..found
        },
        TermV::KSet { definition, .. } => ComputedRuleAttributesV {
            undefined_symbols: inserted::<String>(found.undefined_symbols, definition.concat),
            ..found
        },
        _ => found,
    }
}

/// `found` with what the symbols of a term add.
pub open spec fn symbols_noted(term: TermV, found: ComputedRuleAttributesV) -> ComputedRuleAttributesV
    decreases term, 1int, 0int,
{
    child_symbols_noted(term, head_noted(term, found), 0)
}

/// `found` with what the symbols of the children from `from` on add.
pub open spec fn child_symbols_noted(
    term: TermV,
    found: ComputedRuleAttributesV,
    from: int,
) -> ComputedRuleAttributesV
    decreases term, 0int, children(term).len() - from,
{
    if 0 <= from < children(term).len() {
        proof {
            lemma_child_smaller(term, from);
        }
        child_symbols_noted(term, symbols_noted(children(term)[from], found), from + 1)
    } else {
        found
    }
}

/// Nothing noted.
pub open spec fn nothing_noted() -> ComputedRuleAttributesV {
    ComputedRuleAttributesV { contains_ac_symbols: false, undefined_symbols: Seq::empty() }
}

fn note_head(term: &Term, found: &mut ComputedRuleAttributes)
    ensures
        final(found)@ == head_noted(term@, old(found)@),
{
    proof {
        lemma_term_view(*term);
    }
    match term {
        Term::Application { symbol, .. } => {
            if symbol.attributes.associative || symbol.attributes.idempotent {
                found.contains_ac_symbols = true;
            }
            if let SymbolType::Function(FunctionType::Partial) = symbol.attributes.symbol_type {
                insert_sorted(&mut found.undefined_symbols, symbol.name.duplicate());
            }
        },
        Term::KMap { definition, .. } => {
            insert_sorted(&mut found.undefined_symbols, definition.concat.duplicate());
        },
        Term::KSet { definition, .. } => {
            insert_sorted(&mut found.undefined_symbols, definition.concat.duplicate());
        },
        _ => {},
    }
}

fn note_symbols(term: &Term, found: &mut ComputedRuleAttributes)
    ensures
        final(found)@ == symbols_noted(term@, old(found)@),
    decreases term@,
{
    note_head(term, found);
    let ghost start = found@;
    let kids = term.children();
    let mut i: usize = 0;
    while i < kids.len()
        invariant
            i <= kids.len(),
            deep(kids@) == children(term@),
            child_symbols_noted(term@, start, 0) == child_symbols_noted(
                term@,
                found@,
                i as int,
            ),
        decreases kids.len() - i,
    {
        assert(deep(kids@)[i as int] == kids[i as int]@);
        proof {
            lemma_child_smaller(term@, i as int);
        }
        note_symbols(kids[i], found);
        i += 1;
    }
}

/// A rule with a term as its right-hand side. Where the frontend says that the rule preserves
/// definedness, its symbols are taken to be defined.
pub open spec fn rule_made(
    lhs: TermV,
    rhs: TermV,
    required: Seq<PredicateV>,
    ensured: Seq<PredicateV>,
    attributes: RuleAttributesV,
    existentials: Seq<VariableV>,
) -> RewriteRuleV {
    let noted = symbols_noted(rhs, symbols_noted(lhs, nothing_noted()));
    RewriteRuleV {
        lhs,
        rhs: RuleRhsV::Term(rhs),
        requires: required,
        ensures: ensured,
        attributes,
        computed_attributes: if attributes.preserves_definedness {
            ComputedRuleAttributesV { undefined_symbols: Seq::empty(), ..noted }
        } else {
            noted
        },
        existentials,
    }
}

fn make_rule(
    lhs: Term,
    rhs: Term,
    required: Vec<Predicate>,
    ensured: Vec<Predicate>,
    attributes: RuleAttributes,
    existentials: Vec<Variable>,
) -> (rule: RewriteRule)
    ensures
        rule@ == rule_made(
            lhs@,
            rhs@,
            deep(required@),
            deep(ensured@),
            attributes@,
            deep(existentials@),
        ),
{
    let mut computed_attributes = ComputedRuleAttributes {
        contains_ac_symbols: false,
        undefined_symbols: Vec::new(),
    };
    note_symbols(&lhs, &mut computed_attributes);
    note_symbols(&rhs, &mut computed_attributes);
    if attributes.preserves_definedness {
        computed_attributes.undefined_symbols = Vec::new();
    }
    RewriteRule {
        lhs,
        rhs: RuleRhs::Term(rhs),
        requires: required,
        ensures: ensured,
        attributes,
        computed_attributes,
        existentials,
    }
}

// ---------------------------------------------------------------------------------------------
// Rules
// ---------------------------------------------------------------------------------------------
/// A rule and its kind.
pub type Internalized = Result<(RuleKind, RewriteRuleV), DefinitionErrorV>;

/// The variables from `from` on, behind `found`.
pub open spec fn variables_internalized<K: Kernel>(
    definition: &BackendDefinition<K>,
    variables: Seq<KoreVariableV>,
    parameters: Seq<Seq<char>>,
    found: Seq<VariableV>,
    from: int,
) -> Result<Seq<VariableV>, DefinitionErrorV>
    decreases variables.len() - from,
{
    if from >= variables.len() {
        Ok(found)
    } else {
        match variable_internalized(definition, variables[from], parameters) {
            Ok(variable) => variables_internalized(
                definition,
                variables,
                parameters,
                inserted::<Variable>(found, variable),
                from + 1,
            ),
            Err(error) => Err(error),
        }
    }
}

fn internalize_variables<K: Kernel>(
    definition: &BackendDefinition<K>,
    variables: &Vec<KoreVariable>,
    parameters: &Vec<String>,
) -> (result: Result<Vec<Variable>, DefinitionError>)
    ensures
        result_view(result) == variables_internalized(
            definition,
            deep(variables@),
            deep(parameters@),
            Seq::empty(),
            0,
        ),
{
    let mut found: Vec<Variable> = Vec::new();
    let mut i: usize = 0;
    while i < variables.len()
        invariant
            i <= variables.len(),
            variables_internalized(
                definition,
                deep(variables@),
                deep(parameters@),
                Seq::empty(),
                0,
            ) == variables_internalized(
                definition,
                deep(variables@),
                deep(parameters@),
                deep(found@),
                i as int,
            ),
        decreases variables.len() - i,
    {
        assert(deep(variables@)[i as int] == variables[i as int]@);
        match definition.internalize_variable(&variables[i], parameters) {
            Ok(variable) => {
                insert_sorted(&mut found, variable);
            },
            Err(error) => {
                return Err(error);
            },
        }
        i += 1;
    }
    Ok(found)
}

/// The variables from `from` on with a prefix, in the sorted set `found`.
pub open spec fn all_prefixed(
    variables: Seq<VariableV>,
    prefix: Seq<char>,
    found: Seq<VariableV>,
    from: int,
) -> Seq<VariableV>
    decreases variables.len() - from,
{
    if from >= variables.len() {
        found
    } else {
        all_prefixed(
            variables,
            prefix,
            inserted::<Variable>(found, prefixed_by(variables[from], prefix)),
            from + 1,
        )
    }
}

fn prefix_all(variables: &Vec<Variable>, prefix: &str) -> (result: Vec<Variable>)
    ensures
        deep(result@) == all_prefixed(deep(variables@), prefix@, Seq::empty(), 0),
{
    let mut found: Vec<Variable> = Vec::new();
    let mut i: usize = 0;
    while i < variables.len()
        invariant
            i <= variables.len(),
            all_prefixed(deep(variables@), prefix@, Seq::empty(), 0) == all_prefixed(
                deep(variables@),
                prefix@,
                deep(found@),
                i as int,
            ),
        decreases variables.len() - i,
    {
        assert(deep(variables@)[i as int] == variables[i as int]@);
        insert_sorted(&mut found, prefixed(&variables[i], prefix));
        i += 1;
    }
    found
}

/// The rule of a rewrite axiom: its variables get the prefix of rules, and those that its
/// right-hand side binds the prefix of existential variables.
pub open spec fn rewrite_rule_of<K: Kernel>(
    definition: &BackendDefinition<K>,
    parameters: Seq<Seq<char>>,
    lhs: KorePatternV,
    rhs: KorePatternV,
    existentials: Seq<KoreVariableV>,
    attributes: RuleAttributesV,
) -> Internalized {
    match (rule_side(definition, lhs, parameters), rule_side(definition, rhs, parameters)) {
        (Err(error), _) => Err(error),
        (_, Err(error)) => Err(error),
        (Ok((lhs, required)), Ok((rhs, ensured))) => match variables_internalized(
            definition,
            existentials,
            parameters,
            Seq::empty(),
            0,
        ) {
            Err(error) => Err(error),
            Ok(existentials) => {
                let left = RenamingV { prefix: "Rule#"@, existentials: Seq::empty() };
                let right = RenamingV { prefix: "Rule#"@, existentials };
                Ok(
                    (
                        RuleKind::Rewrite,
                        rule_made(
                            term_renamed(lhs, left),
                            term_renamed(rhs, right),
                            predicates_renamed(required, left),
                            predicates_renamed(ensured, right),
                            attributes,
                            all_prefixed(existentials, "Ex#"@, Seq::empty(), 0),
                        ),
                    ),
                )
            },
        },
    }
}

#[verifier::spinoff_prover]
fn internalize_rewrite<K: Kernel>(
    definition: &BackendDefinition<K>,
    parameters: &Vec<String>,
    lhs: &KorePattern,
    rhs: &KorePattern,
    existentials: &Vec<KoreVariable>,
    attributes: &RuleAttributes,
) -> (result: Result<(RuleKind, RewriteRule), DefinitionError>)
    ensures
        match rewrite_rule_of(
            definition,
            deep(parameters@),
            lhs@,
            rhs@,
            deep(existentials@),
            attributes@,
        ) {
            Ok((kind, rule)) => result is Ok && result->Ok_0.0 == kind && result->Ok_0.1@ == rule,
            Err(error) => result is Err && result->Err_0@ == error,
        },
{
    let (lhs, required) = match internalize_rule_pattern(definition, lhs, parameters) {
        Ok(side) => side,
        Err(error) => {
            return Err(error);
        },
    };
    let (rhs, ensured) = match internalize_rule_pattern(definition, rhs, parameters) {
        Ok(side) => side,
        Err(error) => {
            return Err(error);
        },
    };
    let variables = match internalize_variables(definition, existentials, parameters) {
        Ok(variables) => variables,
        Err(error) => {
            return Err(error);
        },
    };
    let none: Vec<Variable> = Vec::new();
    let left = Renaming { prefix: "Rule#", existentials: &none };
    let right = Renaming { prefix: "Rule#", existentials: &variables };
    Ok(
        (
            RuleKind::Rewrite,
            make_rule(
                rename_term(&lhs, &left),
                rename_term(&rhs, &right),
                rename_predicates(&required, &left),
                rename_predicates(&ensured, &right),
                attributes.duplicate(),
                prefix_all(&variables, "Ex#"),
            ),
        ),
    )
}

/// The substitution of a function's arguments by the patterns that they stand for.
pub open spec fn bindings_internalized<K: Kernel>(
    definition: &BackendDefinition<K>,
    parameters: Seq<Seq<char>>,
    binders: Seq<ArgumentBinderV>,
    found: SubstitutionV,
    from: int,
) -> Result<SubstitutionV, DefinitionErrorV>
    decreases binders.len() - from,
{
    if from >= binders.len() {
        Ok(found)
    } else {
        match (
            variable_internalized(definition, binders[from].variable, parameters),
            term_internalized(definition, binders[from].pattern, parameters),
        ) {
            (Err(error), _) => Err(error),
            (_, Err(error)) => Err(error),
            (Ok(variable), Ok(pattern)) => if variable.sort != sort_of(pattern) {
                Err(
                    DefinitionErrorV::RulePattern(RulePatternErrorV::BinderSortMismatch(variable)),
                )
            } else {
                bindings_internalized(
                    definition,
                    parameters,
                    binders,
                    bound(found, variable, pattern),
                    from + 1,
                )
            },
        }
    }
}

#[verifier::spinoff_prover]
fn internalize_binders<K: Kernel>(
    definition: &BackendDefinition<K>,
    parameters: &Vec<String>,
    binders: &Vec<ArgumentBinder>,
) -> (result: Result<Substitution, DefinitionError>)
    ensures
        result_view(result) == bindings_internalized(
            definition,
            deep(parameters@),
            deep(binders@),
            Seq::empty(),
            0,
        ),
{
    let mut found = Substitution::new();
    let mut i: usize = 0;
    while i < binders.len()
        invariant
            i <= binders.len(),
            bindings_internalized(
                definition,
                deep(parameters@),
                deep(binders@),
                Seq::empty(),
                0,
            ) == bindings_internalized(
                definition,
                deep(parameters@),
                deep(binders@),
                found@,
                i as int,
            ),
        decreases binders.len() - i,
    {
        assert(deep(binders@)[i as int] == binders[i as int]@);
        let variable = match definition.internalize_variable(&binders[i].variable, parameters) {
            Ok(variable) => variable,
            Err(error) => {
                return Err(error);
            },
        };
        let pattern = match definition.internalize_term(&binders[i].pattern, parameters) {
            Ok(pattern) => pattern,
            Err(error) => {
                return Err(error);
            },
        };
        if !variable.sort.equals(&pattern.sort()) {
            return Err(
                DefinitionError::RulePattern(RulePatternError::BinderSortMismatch(variable)),
            );
        }
        found.insert(variable, pattern);
        i += 1;
    }
    Ok(found)
}

/// The rule of an equation: its variables get the prefix of equations.
pub open spec fn equation_made<K: Kernel>(
    definition: &BackendDefinition<K>,
    parameters: Seq<Seq<char>>,
    kind: RuleKind,
    lhs: TermV,
    condition: KorePatternV,
    rhs: KorePatternV,
    attributes: RuleAttributesV,
) -> Internalized {
    match (
        conjuncts_internalized(definition, condition, parameters, Seq::empty()),
        rule_side(definition, rhs, parameters),
    ) {
        (Err(error), _) => Err(error),
        (_, Err(error)) => Err(error),
        (Ok(required), Ok((rhs, ensured))) => {
            let renaming = RenamingV { prefix: "Eq#"@, existentials: Seq::empty() };
            Ok(
                (
                    kind,
                    rule_made(
                        term_renamed(lhs, renaming),
                        term_renamed(rhs, renaming),
                        predicates_renamed(required, renaming),
                        predicates_renamed(ensured, renaming),
                        attributes,
                        Seq::empty(),
                    ),
                ),
            )
        },
    }
}

#[verifier::spinoff_prover]
fn make_equation<K: Kernel>(
    definition: &BackendDefinition<K>,
    parameters: &Vec<String>,
    kind: RuleKind,
    lhs: &Term,
    condition: &KorePattern,
    rhs: &KorePattern,
    attributes: &RuleAttributes,
) -> (result: Result<(RuleKind, RewriteRule), DefinitionError>)
    ensures
        match equation_made(
            definition,
            deep(parameters@),
            kind,
            lhs@,
            condition@,
            rhs@,
            attributes@,
        ) {
            Ok((kind, rule)) => result is Ok && result->Ok_0.0 == kind && result->Ok_0.1@ == rule,
            Err(error) => result is Err && result->Err_0@ == error,
        },
{
    let required = match internalize_predicates(definition, condition, parameters, Vec::new()) {
        Ok(required) => required,
        Err(error) => {
            return Err(error);
        },
    };
    let (rhs, ensured) = match internalize_rule_pattern(definition, rhs, parameters) {
        Ok(side) => side,
        Err(error) => {
            return Err(error);
        },
    };
    let none: Vec<Variable> = Vec::new();
    let renaming = Renaming { prefix: "Eq#", existentials: &none };
    Ok(
        (
            kind,
            make_rule(
                rename_term(lhs, &renaming),
                rename_term(&rhs, &renaming),
                rename_predicates(&required, &renaming),
                rename_predicates(&ensured, &renaming),
                attributes.duplicate(),
                Vec::new(),
            ),
        ),
    )
}

/// The rule of an equation on definedness: its right-hand side is a conjunction of predicates.
pub open spec fn ceil_rule_of<K: Kernel>(
    definition: &BackendDefinition<K>,
    parameters: Seq<Seq<char>>,
    lhs: KorePatternV,
    rhs: KorePatternV,
    attributes: RuleAttributesV,
) -> Internalized {
    match (
        term_internalized(definition, lhs, parameters),
        conjuncts_internalized(definition, rhs, parameters, Seq::empty()),
    ) {
        (Err(error), _) => Err(error),
        (_, Err(error)) => Err(error),
        (Ok(lhs), Ok(rhs)) => {
            let renaming = RenamingV { prefix: "Eq#"@, existentials: Seq::empty() };
            let lhs = term_renamed(lhs, renaming);
            Ok(
                (
                    RuleKind::Ceil,
                    RewriteRuleV {
                        lhs,
                        rhs: RuleRhsV::Predicates(predicates_renamed(rhs, renaming)),
                        requires: Seq::empty(),
                        ensures: Seq::empty(),
                        attributes,
                        computed_attributes: symbols_noted(lhs, nothing_noted()),
                        existentials: Seq::empty(),
                    },
                ),
            )
        },
    }
}

#[verifier::spinoff_prover]
fn internalize_ceil<K: Kernel>(
    definition: &BackendDefinition<K>,
    parameters: &Vec<String>,
    lhs: &KorePattern,
    rhs: &KorePattern,
    attributes: &RuleAttributes,
) -> (result: Result<(RuleKind, RewriteRule), DefinitionError>)
    ensures
        match ceil_rule_of(definition, deep(parameters@), lhs@, rhs@, attributes@) {
            Ok((kind, rule)) => result is Ok && result->Ok_0.0 == kind && result->Ok_0.1@ == rule,
            Err(error) => result is Err && result->Err_0@ == error,
        },
{
    let lhs = match definition.internalize_term(lhs, parameters) {
        Ok(lhs) => lhs,
        Err(error) => {
            return Err(error);
        },
    };
    let rhs = match internalize_predicates(definition, rhs, parameters, Vec::new()) {
        Ok(rhs) => rhs,
        Err(error) => {
            return Err(error);
        },
    };
    let none: Vec<Variable> = Vec::new();
    let renaming = Renaming { prefix: "Eq#", existentials: &none };
    let lhs = rename_term(&lhs, &renaming);
    let mut computed_attributes = ComputedRuleAttributes {
        contains_ac_symbols: false,
        undefined_symbols: Vec::new(),
    };
    note_symbols(&lhs, &mut computed_attributes);
    Ok(
        (
            RuleKind::Ceil,
            RewriteRule {
                lhs,
                rhs: RuleRhs::Predicates(rename_predicates(&rhs, &renaming)),
                requires: Vec::new(),
                ensures: Vec::new(),
                attributes: attributes.duplicate(),
                computed_attributes,
                existentials: Vec::new(),
            },
        ),
    )
}

/// The rule that a classified axiom is.
pub open spec fn rule_of<K: Kernel>(
    definition: &BackendDefinition<K>,
    classified: ClassifiedAxiomV,
) -> Internalized {
    match classified {
        ClassifiedAxiomV::Rewrite {
            sort_parameters,
            lhs,
            rhs,
            existentials,
            attributes,
            ..
        } => rewrite_rule_of(definition, sort_parameters, lhs, rhs, existentials, attributes),
        ClassifiedAxiomV::Simplification {
            sort_parameters,
            condition,
            lhs,
            rhs,
            attributes,
            ..
        } => match term_internalized(definition, lhs, sort_parameters) {
            Err(error) => Err(error),
            Ok(lhs) => equation_made(
                definition,
                sort_parameters,
                RuleKind::Simplification,
                lhs,
                condition,
                rhs,
                attributes,
            ),
        },
        ClassifiedAxiomV::Function {
            sort_parameters,
            condition,
            binders,
            lhs,
            rhs,
            attributes,
            ..
        } => match term_internalized(definition, lhs, sort_parameters) {
            Err(error) => Err(error),
            Ok(lhs) => match bindings_internalized(
                definition,
                sort_parameters,
                binders,
                Seq::empty(),
                0,
            ) {
                Err(error) => Err(error),
                Ok(bindings) => equation_made(
                    definition,
                    sort_parameters,
                    RuleKind::Function,
                    substituted(lhs, bindings),
                    condition,
                    rhs,
                    attributes,
                ),
            },
        },
        ClassifiedAxiomV::Ceil { sort_parameters, lhs, rhs, attributes, .. } => ceil_rule_of(
            definition,
            sort_parameters,
            lhs,
            rhs,
            attributes,
        ),
    }
}

/// Make a rule of a classified axiom.
#[verifier::spinoff_prover]
pub fn internalize_axiom<K: Kernel>(
    definition: &BackendDefinition<K>,
    classified: &ClassifiedAxiom,
) -> (result: Result<(RuleKind, RewriteRule), DefinitionError>)
    ensures
        match rule_of(definition, classified@) {
            Ok((kind, rule)) => result is Ok && result->Ok_0.0 == kind && result->Ok_0.1@ == rule,
            Err(error) => result is Err && result->Err_0@ == error,
        },
{
    match classified {
        ClassifiedAxiom::Rewrite { sort_parameters, lhs, rhs, existentials, attributes, .. } => {
            internalize_rewrite(definition, sort_parameters, lhs, rhs, existentials, attributes)
        },
        ClassifiedAxiom::Simplification {
            sort_parameters,
            condition,
            lhs,
            rhs,
            attributes,
            ..
        } => {
            let lhs = match definition.internalize_term(lhs, sort_parameters) {
                Ok(lhs) => lhs,
                Err(error) => {
                    return Err(error);
                },
            };
            make_equation(
                definition,
                sort_parameters,
                RuleKind::Simplification,
                &lhs,
                condition,
                rhs,
                attributes,
            )
        },
        ClassifiedAxiom::Function {
            sort_parameters,
            condition,
            binders,
            lhs,
            rhs,
            attributes,
            ..
        } => {
            let lhs = match definition.internalize_term(lhs, sort_parameters) {
                Ok(lhs) => lhs,
                Err(error) => {
                    return Err(error);
                },
            };
            let bindings = match internalize_binders(definition, sort_parameters, binders) {
                Ok(bindings) => bindings,
                Err(error) => {
                    return Err(error);
                },
            };
            make_equation(
                definition,
                sort_parameters,
                RuleKind::Function,
                &substitute(&lhs, &bindings),
                condition,
                rhs,
                attributes,
            )
        },
        ClassifiedAxiom::Ceil { sort_parameters, lhs, rhs, attributes, .. } => internalize_ceil(
            definition,
            sort_parameters,
            lhs,
            rhs,
            attributes,
        ),
    }
}

} // verus!
