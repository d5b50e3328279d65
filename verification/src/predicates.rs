//! Substitution in predicates, and predicates up to the names of bound variables.

use vstd::prelude::*;
use crate::model::{deep, difference, group_deep, subtract, Value};
use crate::names::{decimal, decimal_text, next_counter};
use crate::predicate::{free_variables, lemma_predicate_view, Predicate, PredicateV};
use crate::substitution::{substitute, substituted, Substitution, SubstitutionV};
use crate::term::{Term, TermV, Variable, VariableV};

verus! {

broadcast use group_deep;

// ---------------------------------------------------------------------------------------------
// Substitution
// ---------------------------------------------------------------------------------------------
/// The first `count` bindings but those of `variable`.
pub open spec fn unbound_upto(
    substitution: SubstitutionV,
    variable: VariableV,
    count: int,
) -> SubstitutionV
    decreases count,
{
    if count <= 0 {
        Seq::empty()
    } else {
        let before = unbound_upto(substitution, variable, count - 1);
        if substitution[count - 1].0 == variable {
            before
        } else {
            before.push(substitution[count - 1])
        }
    }
}

/// `substitution` without a binding of `variable`.
pub open spec fn unbound(substitution: SubstitutionV, variable: VariableV) -> SubstitutionV {
    unbound_upto(substitution, variable, substitution.len() as int)
}

/// `predicate` with `substitution` applied to its free variables.
pub open spec fn predicate_substituted(
    predicate: PredicateV,
    substitution: SubstitutionV,
) -> PredicateV
    decreases predicate, 0int,
{
    match predicate {
        PredicateV::True => PredicateV::True,
        PredicateV::False => PredicateV::False,
        PredicateV::Term(term) => PredicateV::Term(substituted(term, substitution)),
        PredicateV::Equals(left, right) => PredicateV::Equals(
            substituted(left, substitution),
            substituted(right, substitution),
        ),
        PredicateV::Ceil(term) => PredicateV::Ceil(substituted(term, substitution)),
        PredicateV::Floor(term) => PredicateV::Floor(substituted(term, substitution)),
        PredicateV::In(left, right) => PredicateV::In(
            substituted(left, substitution),
            substituted(right, substitution),
        ),
        PredicateV::Not(inner) => PredicateV::Not(
            Box::new(predicate_substituted(*inner, substitution)),
        ),
        PredicateV::And(inner) => PredicateV::And(predicates_substituted(inner, substitution)),
        PredicateV::Or(inner) => PredicateV::Or(predicates_substituted(inner, substitution)),
        PredicateV::Implies(left, right) => PredicateV::Implies(
            Box::new(predicate_substituted(*left, substitution)),
            Box::new(predicate_substituted(*right, substitution)),
        ),
        PredicateV::Iff(left, right) => PredicateV::Iff(
            Box::new(predicate_substituted(*left, substitution)),
            Box::new(predicate_substituted(*right, substitution)),
        ),
        PredicateV::Exists(variable, inner) => PredicateV::Exists(
            variable,
            Box::new(predicate_substituted(*inner, unbound(substitution, variable))),
        ),
        PredicateV::Forall(variable, inner) => PredicateV::Forall(
            variable,
            Box::new(predicate_substituted(*inner, unbound(substitution, variable))),
        ),
    }
}

/// The predicates with `substitution` applied to their free variables.
pub open spec fn predicates_substituted(
    predicates: Seq<PredicateV>,
    substitution: SubstitutionV,
) -> Seq<PredicateV>
    decreases predicates, 1int,
{
    Seq::new(
        predicates.len(),
        |i: int|
            if 0 <= i < predicates.len() {
                predicate_substituted(predicates[i], substitution)
            } else {
                arbitrary()
            },
    )
}

fn without_variable(substitution: &Substitution, variable: &Variable) -> (result: Substitution)
    ensures
        result@ == unbound(substitution@, variable@),
{
    let mut bindings: Vec<(Variable, Term)> = Vec::new();
    let mut i: usize = 0;
    while i < substitution.bindings.len()
        invariant
            i <= substitution.bindings.len(),
            deep(bindings@) == unbound_upto(substitution@, variable@, i as int),
        decreases substitution.bindings.len() - i,
    {
        assert(substitution@[i as int] == (
            substitution.bindings[i as int].0@,
            substitution.bindings[i as int].1@,
        ));
        if !substitution.bindings[i].0.equals(variable) {
            bindings.push(substitution.bindings[i].duplicate());
        }
        i += 1;
    }
    Substitution { bindings }
}

/// Apply a substitution to the free variables of a predicate.
pub(crate) fn substitute_predicate(predicate: &Predicate, substitution: &Substitution) -> (result:
    Predicate)
    ensures
        result@ == predicate_substituted(predicate@, substitution@),
    decreases predicate,
{
    proof {
        lemma_predicate_view(*predicate);
    }
    match predicate {
        Predicate::True => Predicate::constant(true),
        Predicate::False => Predicate::constant(false),
        Predicate::Term(term) => Predicate::of_term(substitute(term, substitution)),
        Predicate::Equals(left, right) => Predicate::equality(
            substitute(left, substitution),
            substitute(right, substitution),
        ),
        Predicate::Ceil(term) => Predicate::ceil(substitute(term, substitution)),
        Predicate::Floor(term) => Predicate::floor(substitute(term, substitution)),
        Predicate::In(left, right) => Predicate::member(
            substitute(left, substitution),
            substitute(right, substitution),
        ),
        Predicate::Not(inner) => Predicate::negation(substitute_predicate(inner, substitution)),
        Predicate::And(inner) => Predicate::conjunction(substitute_predicates(inner, substitution)),
        Predicate::Or(inner) => Predicate::disjunction(substitute_predicates(inner, substitution)),
        Predicate::Implies(left, right) => {
            let left = substitute_predicate(left, substitution);
            let right = substitute_predicate(right, substitution);
            Predicate::implication(left, right)
        },
        Predicate::Iff(left, right) => {
            let left = substitute_predicate(left, substitution);
            let right = substitute_predicate(right, substitution);
            Predicate::equivalence(left, right)
        },
        Predicate::Exists(variable, inner) => Predicate::for_some(
            variable.duplicate(),
            substitute_predicate(inner, &without_variable(substitution, variable)),
        ),
        Predicate::Forall(variable, inner) => Predicate::for_all(
            variable.duplicate(),
            substitute_predicate(inner, &without_variable(substitution, variable)),
        ),
    }
}

/// Apply a substitution throughout a collection of predicates.
pub fn substitute_predicates(predicates: &Vec<Predicate>, substitution: &Substitution) -> (result:
    Vec<Predicate>)
    ensures
        deep(result@) == predicates_substituted(deep(predicates@), substitution@),
    decreases predicates,
{
    let mut result: Vec<Predicate> = Vec::new();
    let mut i: usize = 0;
    while i < predicates.len()
        invariant
            i <= predicates.len(),
            result.len() == i,
            forall|j: int|
                0 <= j < i ==> (#[trigger] result[j])@ == predicate_substituted(
                    predicates[j]@,
                    substitution@,
                ),
        decreases predicates.len() - i,
    {
        result.push(substitute_predicate(&predicates[i], substitution));
        i += 1;
    }
    assert(deep(result@) =~= predicates_substituted(deep(predicates@), substitution@));
    result
}

// ---------------------------------------------------------------------------------------------
// Conjunctions and quantifiers
// ---------------------------------------------------------------------------------------------
/// The conjunction of `predicates`, without a needless layer.
pub open spec fn conjoined(predicates: Seq<PredicateV>) -> PredicateV {
    if predicates.len() == 0 {
        PredicateV::True
    } else if predicates.len() == 1 {
        predicates[0]
    } else {
        PredicateV::And(predicates)
    }
}

pub(crate) fn conjoin(predicates: Vec<Predicate>) -> (result: Predicate)
    ensures
        result@ == conjoined(deep(predicates@)),
{
    let mut predicates = predicates;
    if predicates.len() == 0 {
        Predicate::constant(true)
    } else if predicates.len() == 1 {
        assert(deep(predicates@)[0] == predicates[0]@);
        predicates.remove(0)
    } else {
        Predicate::conjunction(predicates)
    }
}

/// `predicate` below quantifiers over the first `count` of `variables`, the first outermost.
pub open spec fn quantified(
    predicate: PredicateV,
    variables: Seq<VariableV>,
    from: int,
) -> PredicateV
    decreases variables.len() - from,
{
    if from >= variables.len() {
        predicate
    } else {
        PredicateV::Exists(variables[from], Box::new(quantified(predicate, variables, from + 1)))
    }
}

pub(crate) fn quantify(predicate: Predicate, variables: &Vec<Variable>) -> (result: Predicate)
    ensures
        result@ == quantified(predicate@, deep(variables@), 0),
{
    let ghost inner = predicate@;
    let mut result = predicate;
    let mut i: usize = variables.len();
    while i > 0
        invariant
            i <= variables.len(),
            result@ == quantified(inner, deep(variables@), i as int),
        decreases i,
    {
        i -= 1;
        assert(deep(variables@)[i as int] == variables[i as int]@);
        result = Predicate::for_some(variables[i].duplicate(), result);
    }
    result
}

/// The conjunction of `predicates` below quantifiers over those of its variables that are not in
/// `known`.
pub open spec fn introduced_quantified(
    known: Seq<VariableV>,
    predicates: Seq<PredicateV>,
) -> PredicateV {
    let condition = conjoined(predicates);
    quantified(condition, difference(free_variables(condition), known), 0)
}

/// Quantify the variables that `predicates` introduce beyond `known`.
pub(crate) fn quantify_introduced(known: &Vec<Variable>, predicates: Vec<Predicate>) -> (result:
    Predicate)
    ensures
        result@ == introduced_quantified(deep(known@), deep(predicates@)),
{
    let condition = conjoin(predicates);
    let introduced = subtract(&condition.free_variables(), known);
    quantify(condition, &introduced)
}

// ---------------------------------------------------------------------------------------------
// Bound variables
// ---------------------------------------------------------------------------------------------
/// The height of a predicate: how deeply its connectives and quantifiers are nested.
pub open spec fn height(predicate: PredicateV) -> nat
    decreases predicate, 0int,
{
    match predicate {
        PredicateV::Not(inner) => height(*inner) + 1,
        PredicateV::And(inner) => heights(inner, 0) + 1,
        PredicateV::Or(inner) => heights(inner, 0) + 1,
        PredicateV::Implies(left, right) => height(*left) + height(*right) + 1,
        PredicateV::Iff(left, right) => height(*left) + height(*right) + 1,
        PredicateV::Exists(_, inner) => height(*inner) + 1,
        PredicateV::Forall(_, inner) => height(*inner) + 1,
        _ => 0,
    }
}

/// The sum of the heights from `from` on.
pub open spec fn heights(predicates: Seq<PredicateV>, from: int) -> nat
    decreases predicates, predicates.len() - from,
{
    if 0 <= from < predicates.len() {
        height(predicates[from]) + 1 + heights(predicates, from + 1)
    } else {
        0
    }
}

/// A predicate is no higher than the sequence that it is in.
pub proof fn lemma_heights_member(predicates: Seq<PredicateV>, from: int, position: int)
    requires
        0 <= from <= position < predicates.len(),
    ensures
        height(predicates[position]) < heights(predicates, from),
    decreases position - from,
{
    if from < position {
        lemma_heights_member(predicates, from + 1, position);
    }
}

/// A substitution leaves the height as it is.
pub proof fn lemma_height_substituted(predicate: PredicateV, substitution: SubstitutionV)
    ensures
        height(predicate_substituted(predicate, substitution)) == height(predicate),
    decreases predicate, 0int,
{
    match predicate {
        PredicateV::Not(inner) => lemma_height_substituted(*inner, substitution),
        PredicateV::And(inner) => lemma_heights_substituted(inner, substitution, 0),
        PredicateV::Or(inner) => lemma_heights_substituted(inner, substitution, 0),
        PredicateV::Implies(left, right) => {
            lemma_height_substituted(*left, substitution);
            lemma_height_substituted(*right, substitution);
        },
        PredicateV::Iff(left, right) => {
            lemma_height_substituted(*left, substitution);
            lemma_height_substituted(*right, substitution);
        },
        PredicateV::Exists(variable, inner) => {
            lemma_height_substituted(*inner, unbound(substitution, variable));
        },
        PredicateV::Forall(variable, inner) => {
            lemma_height_substituted(*inner, unbound(substitution, variable));
        },
        _ => {},
    }
}

/// A substitution keeps the height of predicates.
pub proof fn lemma_heights_substituted(
    predicates: Seq<PredicateV>,
    substitution: SubstitutionV,
    from: int,
)
    requires
        0 <= from <= predicates.len(),
    ensures
        heights(predicates_substituted(predicates, substitution), from) == heights(
            predicates,
            from,
        ),
    decreases predicates, predicates.len() - from,
{
    if from < predicates.len() {
        lemma_height_substituted(predicates[from], substitution);
        lemma_heights_substituted(predicates, substitution, from + 1);
        assert(predicates_substituted(predicates, substitution)[from] == predicate_substituted(
            predicates[from],
            substitution,
        ));
    }
}

/// The name of the bound variable with number `number`. No identifier of a definition starts with
/// its first character.
pub open spec fn bound_name(number: u64) -> Seq<char> {
    "\0bound"@ + decimal(number as nat)
}

/// A predicate and the number for the next bound variable.
pub type Numbered = (PredicateV, u64);

/// `predicate` with its bound variables renamed by number, from `next` on, outermost and leftmost
/// first.
pub open spec fn alpha_normal(predicate: PredicateV, next: u64) -> Numbered
    decreases height(predicate), 0int,
{
    match predicate {
        PredicateV::Exists(variable, inner) => {
            let named = VariableV { name: bound_name(next), ..variable };
            let renamed = predicate_substituted(
                *inner,
                seq![(variable, TermV::Variable(named))],
            );
            proof {
                lemma_height_substituted(*inner, seq![(variable, TermV::Variable(named))]);
            }
            let (body, after) = alpha_normal(renamed, next_counter(next));
            (PredicateV::Exists(named, Box::new(body)), after)
        },
        PredicateV::Forall(variable, inner) => {
            let named = VariableV { name: bound_name(next), ..variable };
            let renamed = predicate_substituted(
                *inner,
                seq![(variable, TermV::Variable(named))],
            );
            proof {
                lemma_height_substituted(*inner, seq![(variable, TermV::Variable(named))]);
            }
            let (body, after) = alpha_normal(renamed, next_counter(next));
            (PredicateV::Forall(named, Box::new(body)), after)
        },
        PredicateV::Not(inner) => {
            let (inner, after) = alpha_normal(*inner, next);
            (PredicateV::Not(Box::new(inner)), after)
        },
        PredicateV::And(inner) => {
            let (inner, after) = alpha_normals(inner, 0, Seq::empty(), next);
            (PredicateV::And(inner), after)
        },
        PredicateV::Or(inner) => {
            let (inner, after) = alpha_normals(inner, 0, Seq::empty(), next);
            (PredicateV::Or(inner), after)
        },
        PredicateV::Implies(left, right) => {
            let (left, middle) = alpha_normal(*left, next);
            let (right, after) = alpha_normal(*right, middle);
            (PredicateV::Implies(Box::new(left), Box::new(right)), after)
        },
        PredicateV::Iff(left, right) => {
            let (left, middle) = alpha_normal(*left, next);
            let (right, after) = alpha_normal(*right, middle);
            (PredicateV::Iff(Box::new(left), Box::new(right)), after)
        },
        _ => (predicate, next),
    }
}

/// `done` with the predicates from `from` on, renamed.
pub open spec fn alpha_normals(
    predicates: Seq<PredicateV>,
    from: int,
    done: Seq<PredicateV>,
    next: u64,
) -> (Seq<PredicateV>, u64)
    decreases heights(predicates, 0), predicates.len() - from,
{
    if 0 <= from < predicates.len() {
        proof {
            lemma_heights_member(predicates, 0, from);
        }
        let (predicate, after) = alpha_normal(predicates[from], next);
        alpha_normals(predicates, from + 1, done.push(predicate), after)
    } else {
        (done, next)
    }
}

/// Whether two predicates differ in the names of bound variables only.
pub open spec fn alpha_equal(left: PredicateV, right: PredicateV) -> bool {
    alpha_normal(left, 0).0 == alpha_normal(right, 0).0
}

/// Whether one of the predicates from `from` on, or a part of a conjunction among them, differs
/// from `target` in the names of bound variables only.
pub open spec fn holds_alpha_equal(
    predicates: Seq<PredicateV>,
    target: PredicateV,
    from: int,
) -> bool
    decreases predicates, predicates.len() - from,
{
    if 0 <= from < predicates.len() {
        alpha_equal(predicates[from], target) || (match predicates[from] {
            PredicateV::And(inner) => {
                proof {
                    assert(decreases_to!(predicates => predicates[from]));
                    assert(decreases_to!(predicates[from] => predicates[from]->And_0));
                }
                holds_alpha_equal(inner, target, 0)
            },
            _ => false,
        }) || holds_alpha_equal(predicates, target, from + 1)
    } else {
        false
    }
}

fn bound_text(number: u64) -> (text: String)
    ensures
        text@ == bound_name(number),
{
    let mut text = "\0bound".to_owned();
    text.append(decimal_text(number).as_str());
    text
}

fn advance(next: &mut u64)
    ensures
        *final(next) == next_counter(*old(next)),
{
    *next =
    if *next == u64::MAX {
        0
    } else {
        *next + 1
    };
}

fn name_bound(variable: &Variable, inner: &Predicate, number: u64) -> (result: (
    Variable,
    Predicate,
))
    ensures
        result.0@ == (VariableV { name: bound_name(number), ..variable@ }),
        result.1@ == predicate_substituted(
            inner@,
            seq![(variable@, TermV::Variable(result.0@))],
        ),
{
    let named = variable.with_name(bound_text(number));
    let single = Substitution::singleton(
        variable.duplicate(),
        Term::variable(named.duplicate()),
    );
    let renamed = substitute_predicate(inner, &single);
    (named, renamed)
}

/// Rename the bound variables by number, from `next` on.
pub(crate) fn alpha_normalize(predicate: &Predicate, next: &mut u64) -> (result: Predicate)
    ensures
        (result@, *final(next)) == alpha_normal(predicate@, *old(next)),
    decreases height(predicate@), 0int,
{
    proof {
        lemma_predicate_view(*predicate);
    }
    match predicate {
        Predicate::Exists(variable, inner) => {
            let number: u64 = *next;
            let (named, renamed) = name_bound(variable, inner, number);
            advance(next);
            proof {
                lemma_height_substituted(inner@, seq![(variable@, TermV::Variable(named@))]);
            }
            let body = alpha_normalize(&renamed, next);
            Predicate::for_some(named, body)
        },
        Predicate::Forall(variable, inner) => {
            let number: u64 = *next;
            let (named, renamed) = name_bound(variable, inner, number);
            advance(next);
            proof {
                lemma_height_substituted(inner@, seq![(variable@, TermV::Variable(named@))]);
            }
            let body = alpha_normalize(&renamed, next);
            Predicate::for_all(named, body)
        },
        Predicate::Not(inner) => {
            let inner = alpha_normalize(inner, next);
            Predicate::negation(inner)
        },
        Predicate::And(inner) => {
            let inner = alpha_normalize_all(inner, next);
            Predicate::conjunction(inner)
        },
        Predicate::Or(inner) => {
            let inner = alpha_normalize_all(inner, next);
            Predicate::disjunction(inner)
        },
        Predicate::Implies(left, right) => {
            let left = alpha_normalize(left, next);
            let right = alpha_normalize(right, next);
            Predicate::implication(left, right)
        },
        Predicate::Iff(left, right) => {
            let left = alpha_normalize(left, next);
            let right = alpha_normalize(right, next);
            Predicate::equivalence(left, right)
        },
        _ => predicate.duplicate(),
    }
}

fn alpha_normalize_all(predicates: &Vec<Predicate>, next: &mut u64) -> (result: Vec<Predicate>)
    ensures
        (deep(result@), *final(next)) == alpha_normals(
            deep(predicates@),
            0,
            Seq::empty(),
            *old(next),
        ),
    decreases heights(deep(predicates@), 0), 1int,
{
    let mut result: Vec<Predicate> = Vec::new();
    let mut i: usize = 0;
    while i < predicates.len()
        invariant
            i <= predicates.len(),
            alpha_normals(deep(predicates@), 0, Seq::empty(), *old(next)) == alpha_normals(
                deep(predicates@),
                i as int,
                deep(result@),
                *next,
            ),
        decreases predicates.len() - i,
    {
        proof {
            assert(deep(predicates@)[i as int] == predicates[i as int]@);
            lemma_heights_member(deep(predicates@), 0, i as int);
        }
        let normal = alpha_normalize(&predicates[i], next);
        result.push(normal);
        i += 1;
    }
    result
}

fn alpha_equivalent(left: &Predicate, right: &Predicate) -> (result: bool)
    ensures
        result == alpha_equal(left@, right@),
{
    let mut left_next: u64 = 0;
    let mut right_next: u64 = 0;
    let left = alpha_normalize(left, &mut left_next);
    let right = alpha_normalize(right, &mut right_next);
    left.equals(&right)
}

/// Whether `predicates`, or a conjunction among them, hold a predicate that differs from `target`
/// in the names of bound variables only.
pub(crate) fn conjunctively_contains_alpha_equivalent(
    predicates: &Vec<Predicate>,
    target: &Predicate,
) -> (result: bool)
    ensures
        result == holds_alpha_equal(deep(predicates@), target@, 0),
    decreases predicates,
{
    let mut i: usize = 0;
    while i < predicates.len()
        invariant
            i <= predicates.len(),
            holds_alpha_equal(deep(predicates@), target@, 0) == holds_alpha_equal(
                deep(predicates@),
                target@,
                i as int,
            ),
        decreases predicates.len() - i,
    {
        proof {
            assert(deep(predicates@)[i as int] == predicates[i as int]@);
            lemma_predicate_view(predicates[i as int]);
        }
        if alpha_equivalent(&predicates[i], target) {
            return true;
        }
        if let Predicate::And(inner) = &predicates[i] {
            if conjunctively_contains_alpha_equivalent(inner, target) {
                return true;
            }
        }
        i += 1;
    }
    false
}

/// Every predicate differs from itself in the names of bound variables only, and the relation goes
/// both ways.
pub proof fn law_alpha_equal_equivalence(
    left: PredicateV,
    middle: PredicateV,
    right: PredicateV,
)
    ensures
        alpha_equal(left, left),
        alpha_equal(left, right) == alpha_equal(right, left),
        alpha_equal(left, middle) && alpha_equal(middle, right) ==> alpha_equal(left, right),
{
}

} // verus!
