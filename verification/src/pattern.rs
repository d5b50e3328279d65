//! Constrained terms, and the substitution that their constraints hold.

use vstd::prelude::*;
use crate::assoc::assoc;
use crate::construct::{occurs, occurs_in, variables_of};
use crate::index::{extend_unique, unique_extension};
use crate::matching::injected;
use crate::model::{contains, deep, group_deep, Value};
use crate::ops::{sort_of, sorted};
use crate::predicate::{
    all_free_variables, collect_free_variables, lemma_predicate_view, Predicate, PredicateV,
};
use crate::predicates::{
    introduced_quantified, predicates_substituted, quantify_introduced, substitute_predicates,
};
use crate::sorts::{is_subsort, SortGraph, SortGraphV};
use crate::substitution::{
    bound, composed_values, substitute, substitute_values, substituted, Substitution, SubstitutionV,
};
use crate::term::{lemma_term_view, Term, TermV, Variable, VariableV};

verus! {

broadcast use group_deep;

/// A term where constraints hold.
#[derive(Debug, PartialEq, Eq)]
pub struct Pattern {
    pub term: Term,
    pub constraints: Vec<Predicate>,
}

/// The view of [`Pattern`].
pub struct PatternV {
    pub term: TermV,
    pub constraints: Seq<PredicateV>,
}

impl View for Pattern {
    type V = PatternV;

    open spec fn view(&self) -> PatternV {
        PatternV {
            term: self.term@,
            constraints: deep(self.constraints@),
        }
    }
}

impl DeepView for Pattern {
    type V = PatternV;

    open spec fn deep_view(&self) -> PatternV {
        self@
    }
}

impl Value for Pattern {
    fn duplicate(&self) -> (copy: Self) {
        Pattern {
            term: self.term.duplicate(),
            constraints: self.constraints.duplicate(),
        }
    }

    fn equals(&self, other: &Self) -> (same: bool) {
        self.term.equals(&other.term)
            && self.constraints.equals(&other.constraints)
    }
}

// ---------------------------------------------------------------------------------------------
// Variables of a pattern
// ---------------------------------------------------------------------------------------------
/// The sorted set of the free variables of a pattern.
pub open spec fn pattern_variables(pattern: PatternV) -> Seq<VariableV> {
    all_free_variables(pattern.constraints, 0, variables_of(pattern.term))
}

/// The sorted set of the free variables of a pattern.
pub(crate) fn pattern_free_variables(pattern: &Pattern) -> (result: Vec<Variable>)
    ensures
        deep(result@) == pattern_variables(pattern@),
{
    let mut found = pattern.term.variables();
    collect_free_variables(&pattern.constraints, &mut found);
    found
}

/// The names of `variables`.
pub open spec fn names_of(variables: Seq<VariableV>) -> Seq<Seq<char>> {
    Seq::new(variables.len(), |i: int| variables[i].name)
}

pub(crate) fn variable_names(variables: &Vec<Variable>) -> (result: Vec<String>)
    ensures
        deep(result@) == names_of(deep(variables@)),
{
    let mut result: Vec<String> = Vec::new();
    let mut i: usize = 0;
    while i < variables.len()
        invariant
            i <= variables.len(),
            result.len() == i,
            forall|j: int| 0 <= j < i ==> (#[trigger] result[j])@ == variables[j]@.name,
        decreases variables.len() - i,
    {
        result.push(variables[i].name.clone());
        i += 1;
    }
    assert(deep(result@) =~= names_of(deep(variables@)));
    result
}

/// The names of the free variables of a pattern.
pub open spec fn pattern_names(pattern: PatternV) -> Seq<Seq<char>> {
    names_of(pattern_variables(pattern))
}

/// The names of the free variables of a pattern.
pub(crate) fn pattern_variable_names(pattern: &Pattern) -> (result: Vec<String>)
    ensures
        deep(result@) == pattern_names(pattern@),
{
    variable_names(&pattern_free_variables(pattern))
}

/// The conjunction of `predicates` below quantifiers over the variables that `pattern` does not
/// have.
pub(crate) fn quantify_introduced_variables(pattern: &Pattern, predicates: Vec<Predicate>) -> (result:
    Predicate)
    ensures
        result@ == introduced_quantified(pattern_variables(pattern@), deep(predicates@)),
{
    quantify_introduced(&pattern_free_variables(pattern), predicates)
}

// ---------------------------------------------------------------------------------------------
// Equalities as bindings
// ---------------------------------------------------------------------------------------------
/// `variable` bound to `term`, injected where its sort is smaller, unless the term holds the
/// variable or does not fit.
pub open spec fn oriented(
    sorts: SortGraphV,
    variable: VariableV,
    term: TermV,
) -> Option<(VariableV, TermV)> {
    if occurs(variable, term) {
        None
    } else if sort_of(term) == variable.sort {
        Some((variable, term))
    } else if is_subsort(sorts, sort_of(term), variable.sort) {
        Some((variable, injected(sort_of(term), variable.sort, term)))
    } else {
        None
    }
}

/// The binding that an equality stands for. A variable on the left comes first.
pub open spec fn binding_of(sorts: SortGraphV, predicate: PredicateV) -> Option<(VariableV, TermV)> {
    match predicate {
        PredicateV::Equals(left, right) => {
            let first = if left is Variable {
                oriented(sorts, left->Variable_0, right)
            } else {
                None
            };
            if first is Some {
                first
            } else if right is Variable {
                oriented(sorts, right->Variable_0, left)
            } else {
                None
            }
        },
        _ => None,
    }
}

/// A substitution and the predicates that it does not stand for.
pub type Extraction = (SubstitutionV, Seq<PredicateV>);

/// What becomes of `found` by one more predicate. Only the `allowed` variables are bound, where
/// these are given.
pub open spec fn extracted_step(
    sorts: SortGraphV,
    allowed: Option<Seq<VariableV>>,
    found: Extraction,
    predicate: PredicateV,
) -> Extraction {
    let kept = (found.0, found.1.push(predicate));
    match binding_of(sorts, predicate) {
        Some((variable, term)) => {
            let term = substituted(term, found.0);
            if assoc(found.0, variable) is Some || occurs(variable, term) || (allowed is Some
                && !allowed->0.contains(variable)) {
                kept
            } else {
                (
                    bound(composed_values(seq![(variable, term)], found.0), variable, term),
                    found.1,
                )
            }
        },
        None => kept,
    }
}

/// What becomes of `found` by the predicates from `from` on.
pub open spec fn extracted_from(
    sorts: SortGraphV,
    allowed: Option<Seq<VariableV>>,
    predicates: Seq<PredicateV>,
    found: Extraction,
    from: int,
) -> Extraction
    decreases predicates.len() - from,
{
    if from >= predicates.len() {
        found
    } else {
        extracted_from(
            sorts,
            allowed,
            predicates,
            extracted_step(sorts, allowed, found, predicates[from]),
            from + 1,
        )
    }
}

/// The substitution that equalities among `predicates` stand for, and the other predicates.
pub open spec fn extracted(
    sorts: SortGraphV,
    allowed: Option<Seq<VariableV>>,
    predicates: Seq<PredicateV>,
) -> Extraction {
    extracted_from(sorts, allowed, predicates, (Seq::empty(), Seq::empty()), 0)
}

fn orient(sorts: &SortGraph, variable: &Variable, term: &Term) -> (result: Option<(Variable, Term)>)
    ensures
        result.deep_view() == oriented(sorts@, variable@, term@),
{
    if occurs_in(variable, term) {
        return None;
    }
    let sort = term.sort();
    if sort.equals(&variable.sort) {
        return Some((variable.duplicate(), term.duplicate()));
    }
    if sorts.is_subsort(&sort, &variable.sort) {
        return Some(
            (
                variable.duplicate(),
                Term::injection(sort, variable.sort.duplicate(), term.duplicate()),
            ),
        );
    }
    None
}

/// The binding that an equality stands for.
pub(crate) fn substitution_binding(predicate: &Predicate, sorts: &SortGraph) -> (result: Option<
    (Variable, Term),
>)
    ensures
        result.deep_view() == binding_of(sorts@, predicate@),
{
    proof {
        lemma_predicate_view(*predicate);
    }
    match predicate {
        Predicate::Equals(left, right) => {
            proof {
                lemma_term_view(*left);
                lemma_term_view(*right);
            }
            if let Term::Variable(variable) = left {
                let first = orient(sorts, variable, right);
                if first.is_some() {
                    return first;
                }
            }
            if let Term::Variable(variable) = right {
                return orient(sorts, variable, left);
            }
            None
        },
        _ => None,
    }
}

fn extract_step(
    sorts: &SortGraph,
    allowed: &Option<Vec<Variable>>,
    substitution: &mut Substitution,
    remaining: &mut Vec<Predicate>,
    predicate: &Predicate,
)
    ensures
        (final(substitution)@, deep(final(remaining)@)) == extracted_step(
            sorts@,
            allowed.deep_view(),
            (old(substitution)@, deep(old(remaining)@)),
            predicate@,
        ),
{
    if let Some((variable, term)) = substitution_binding(predicate, sorts) {
        let term = substitute(&term, substitution);
        let refused: bool = match allowed {
            Some(allowed) => !contains(allowed, &variable),
            None => false,
        };
        if substitution.get(&variable).is_none() && !occurs_in(&variable, &term) && !refused {
            let single = Substitution::singleton(variable.duplicate(), term.duplicate());
            let mut next = substitute_values(&single, substitution);
            next.insert(variable, term);
            *substitution = next;
            return ;
        }
    }
    remaining.push(predicate.duplicate());
}

fn extract(sorts: &SortGraph, allowed: &Option<Vec<Variable>>, predicates: &Vec<Predicate>) -> (result:
    (Substitution, Vec<Predicate>))
    ensures
        (result.0@, deep(result.1@)) == extracted(
            sorts@,
            allowed.deep_view(),
            deep(predicates@),
        ),
{
    let mut substitution = Substitution::new();
    let mut remaining: Vec<Predicate> = Vec::new();
    let mut i: usize = 0;
    while i < predicates.len()
        invariant
            i <= predicates.len(),
            extracted(sorts@, allowed.deep_view(), deep(predicates@)) == extracted_from(
                sorts@,
                allowed.deep_view(),
                deep(predicates@),
                (substitution@, deep(remaining@)),
                i as int,
            ),
        decreases predicates.len() - i,
    {
        assert(deep(predicates@)[i as int] == predicates[i as int]@);
        extract_step(sorts, allowed, &mut substitution, &mut remaining, &predicates[i]);
        i += 1;
    }
    (substitution, remaining)
}

/// The substitution that equalities among `predicates` stand for, and the other predicates.
pub fn extract_substitution(predicates: &Vec<Predicate>, sorts: &SortGraph) -> (result: (
    Substitution,
    Vec<Predicate>,
))
    ensures
        (result.0@, deep(result.1@)) == extracted(sorts@, None, deep(predicates@)),
{
    extract(sorts, &None, predicates)
}

/// The same, where only the given variables may be bound.
pub fn extract_substitution_for(
    predicates: &Vec<Predicate>,
    variables: Vec<Variable>,
    sorts: &SortGraph,
) -> (result: (Substitution, Vec<Predicate>))
    ensures
        (result.0@, deep(result.1@)) == extracted(
            sorts@,
            Some(deep(variables@)),
            deep(predicates@),
        ),
{
    extract(sorts, &Some(variables), predicates)
}

/// The equalities that a substitution stands for.
pub open spec fn equalities_of(substitution: SubstitutionV) -> Seq<PredicateV> {
    Seq::new(
        substitution.len(),
        |i: int| PredicateV::Equals(TermV::Variable(substitution[i].0), substitution[i].1),
    )
}

/// The equalities that a substitution stands for.
pub(crate) fn substitution_predicates(substitution: &Substitution) -> (result: Vec<Predicate>)
    ensures
        deep(result@) == equalities_of(substitution@),
{
    let mut result: Vec<Predicate> = Vec::new();
    let mut i: usize = 0;
    while i < substitution.bindings.len()
        invariant
            i <= substitution.bindings.len(),
            result.len() == i,
            forall|j: int|
                0 <= j < i ==> (#[trigger] result[j])@ == PredicateV::Equals(
                    TermV::Variable(substitution.bindings[j].0@),
                    substitution.bindings[j].1@,
                ),
        decreases substitution.bindings.len() - i,
    {
        result.push(
            Predicate::equality(
                Term::variable(substitution.bindings[i].0.duplicate()),
                substitution.bindings[i].1.duplicate(),
            ),
        );
        i += 1;
    }
    assert(deep(result@) =~= equalities_of(substitution@));
    result
}

/// The substitution in a pattern's constraints, applied throughout. The constraints become the
/// equalities of the substitution and then what is left of the others, each once.
pub open spec fn substitution_normalized(sorts: SortGraphV, pattern: PatternV) -> PatternV {
    let (substitution, remaining) = extracted(sorts, None, pattern.constraints);
    if substitution.len() == 0 {
        pattern
    } else {
        PatternV {
            term: substituted(pattern.term, substitution),
            constraints: unique_extension(
                equalities_of(substitution),
                predicates_substituted(remaining, substitution),
            ),
        }
    }
}

/// Apply the acyclic substitution that a pattern's equality constraints stand for, and keep it as
/// canonical equalities.
pub fn normalize_pattern_substitution(pattern: &mut Pattern, sorts: &SortGraph) -> (result:
    Substitution)
    ensures
        result@ == extracted(sorts@, None, old(pattern)@.constraints).0,
        final(pattern)@ == substitution_normalized(sorts@, old(pattern)@),
{
    let (substitution, remaining) = extract_substitution(&pattern.constraints, sorts);
    if substitution.is_empty() {
        return substitution;
    }
    let term = substitute(&pattern.term, &substitution);
    let mut constraints = substitution_predicates(&substitution);
    extend_unique(&mut constraints, substitute_predicates(&remaining, &substitution));
    pattern.term = term;
    pattern.constraints = constraints;
    substitution
}

/// Whether one of the predicates from `from` on stands for a binding of `variable`.
pub open spec fn represents(
    sorts: SortGraphV,
    predicates: Seq<PredicateV>,
    variable: VariableV,
    from: int,
) -> bool
    decreases predicates.len() - from,
{
    if from >= predicates.len() {
        false
    } else {
        (match binding_of(sorts, predicates[from]) {
            Some((represented, _)) => represented == variable,
            None => false,
        }) || represents(sorts, predicates, variable, from + 1)
    }
}

/// `constraints` with the bindings from `from` on that none of them stands for, put in front one
/// after the other.
pub open spec fn retained_from(
    sorts: SortGraphV,
    constraints: Seq<PredicateV>,
    substitution: SubstitutionV,
    from: int,
) -> Seq<PredicateV>
    decreases substitution.len() - from,
{
    if from >= substitution.len() {
        constraints
    } else {
        retained_from(
            sorts,
            if represents(sorts, constraints, substitution[from].0, 0) {
                constraints
            } else {
                seq![
                    PredicateV::Equals(
                        TermV::Variable(substitution[from].0),
                        substitution[from].1,
                    ),
                ] + constraints
            },
            substitution,
            from + 1,
        )
    }
}

fn is_represented(sorts: &SortGraph, predicates: &Vec<Predicate>, variable: &Variable) -> (result:
    bool)
    ensures
        result == represents(sorts@, deep(predicates@), variable@, 0),
{
    let mut i: usize = 0;
    while i < predicates.len()
        invariant
            i <= predicates.len(),
            represents(sorts@, deep(predicates@), variable@, 0) == represents(
                sorts@,
                deep(predicates@),
                variable@,
                i as int,
            ),
        decreases predicates.len() - i,
    {
        assert(deep(predicates@)[i as int] == predicates[i as int]@);
        if let Some((represented, _)) = substitution_binding(&predicates[i], sorts) {
            if represented.equals(variable) {
                return true;
            }
        }
        i += 1;
    }
    false
}

/// Put the bindings of `substitution` that no constraint stands for in front of the constraints.
pub(crate) fn retain_substitution_predicates(
    constraints: &mut Vec<Predicate>,
    substitution: &Substitution,
    sorts: &SortGraph,
)
    ensures
        deep(final(constraints)@) == retained_from(
            sorts@,
            deep(old(constraints)@),
            substitution@,
            0,
        ),
{
    let mut i: usize = 0;
    while i < substitution.bindings.len()
        invariant
            i <= substitution.bindings.len(),
            retained_from(sorts@, deep(old(constraints)@), substitution@, 0) == retained_from(
                sorts@,
                deep(constraints@),
                substitution@,
                i as int,
            ),
        decreases substitution.bindings.len() - i,
    {
        assert(substitution@[i as int] == (
            substitution.bindings[i as int].0@,
            substitution.bindings[i as int].1@,
        ));
        if !is_represented(sorts, constraints, &substitution.bindings[i].0) {
            let equality = Predicate::equality(
                Term::variable(substitution.bindings[i].0.duplicate()),
                substitution.bindings[i].1.duplicate(),
            );
            let ghost before = deep(constraints@);
            constraints.insert(0, equality);
            assert(deep(constraints@) =~= seq![equality@] + before);
        }
        i += 1;
    }
}

} // verus!
