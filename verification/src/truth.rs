//! What is known of a predicate without a solver.

use vstd::prelude::*;
use crate::construct::constructor_like;
use crate::model::{deep, group_deep, Value};
use crate::predicate::{lemma_predicate_view, Predicate, PredicateV};
use crate::term::{lemma_term_view, simple_sort, Sort, Term, TermV};
use crate::text::is_text;

verus! {

broadcast use group_deep;

/// What is known of a predicate.
#[derive(Clone, Copy, Debug, PartialEq, Eq, Structural)]
pub enum Truth {
    True,
    False,
    Unknown,
}

/// The truth of a conjunction.
pub open spec fn both(left: Truth, right: Truth) -> Truth {
    match (left, right) {
        (Truth::False, _) => Truth::False,
        (_, Truth::False) => Truth::False,
        (Truth::True, Truth::True) => Truth::True,
        _ => Truth::Unknown,
    }
}

/// The truth of a disjunction.
pub open spec fn either(left: Truth, right: Truth) -> Truth {
    match (left, right) {
        (Truth::True, _) => Truth::True,
        (_, Truth::True) => Truth::True,
        (Truth::False, Truth::False) => Truth::False,
        _ => Truth::Unknown,
    }
}

/// The truth of a negation.
pub open spec fn opposite(truth: Truth) -> Truth {
    match truth {
        Truth::True => Truth::False,
        Truth::False => Truth::True,
        Truth::Unknown => Truth::Unknown,
    }
}

/// The truth of an equivalence.
pub open spec fn same_truth(left: Truth, right: Truth) -> Truth {
    match (left, right) {
        (Truth::Unknown, _) => Truth::Unknown,
        (_, Truth::Unknown) => Truth::Unknown,
        _ => if left == right {
            Truth::True
        } else {
            Truth::False
        },
    }
}

pub(crate) fn and_truth(left: Truth, right: Truth) -> (result: Truth)
    ensures
        result == both(left, right),
{
    match (left, right) {
        (Truth::False, _) => Truth::False,
        (_, Truth::False) => Truth::False,
        (Truth::True, Truth::True) => Truth::True,
        _ => Truth::Unknown,
    }
}

pub(crate) fn or_truth(left: Truth, right: Truth) -> (result: Truth)
    ensures
        result == either(left, right),
{
    match (left, right) {
        (Truth::True, _) => Truth::True,
        (_, Truth::True) => Truth::True,
        (Truth::False, Truth::False) => Truth::False,
        _ => Truth::Unknown,
    }
}

pub(crate) fn not_truth(truth: Truth) -> (result: Truth)
    ensures
        result == opposite(truth),
{
    match truth {
        Truth::True => Truth::False,
        Truth::False => Truth::True,
        Truth::Unknown => Truth::Unknown,
    }
}

/// The domain value of sort Bool for `value`.
pub open spec fn bool_literal(value: bool) -> TermV {
    TermV::DomainValue {
        sort: simple_sort("SortBool"@),
        value: if value {
            "true"@
        } else {
            "false"@
        },
    }
}

/// The value of a domain value of sort Bool.
pub open spec fn bool_value_of(term: TermV) -> Option<bool> {
    if term == bool_literal(true) {
        Some(true)
    } else if term == bool_literal(false) {
        Some(false)
    } else {
        None
    }
}

/// What is known of a term of sort Bool.
pub open spec fn term_truth(term: TermV) -> Truth {
    match bool_value_of(term) {
        Some(true) => Truth::True,
        Some(false) => Truth::False,
        None => Truth::Unknown,
    }
}

/// What is known of a predicate.
///
/// Equal terms are equal, different constructor-like terms are not, and a constructor-like term is
/// defined. Quantified predicates, and equalities of other terms, are unknown.
pub open spec fn truth_of(predicate: PredicateV) -> Truth
    decreases predicate, 0int,
{
    match predicate {
        PredicateV::True => Truth::True,
        PredicateV::False => Truth::False,
        PredicateV::Term(term) => term_truth(term),
        PredicateV::Equals(left, right) => if left == right {
            Truth::True
        } else if constructor_like(left) && constructor_like(right) {
            Truth::False
        } else {
            Truth::Unknown
        },
        PredicateV::Not(inner) => opposite(truth_of(*inner)),
        PredicateV::And(inner) => all_truth(inner, Truth::True, 0),
        PredicateV::Or(inner) => any_truth(inner, Truth::False, 0),
        PredicateV::Implies(left, right) => either(opposite(truth_of(*left)), truth_of(*right)),
        PredicateV::Iff(left, right) => same_truth(truth_of(*left), truth_of(*right)),
        PredicateV::Ceil(term) => if constructor_like(term) {
            Truth::True
        } else {
            Truth::Unknown
        },
        _ => Truth::Unknown,
    }
}

/// What is known of `truth` and of the predicates from `from` on together.
pub open spec fn all_truth(predicates: Seq<PredicateV>, truth: Truth, from: int) -> Truth
    decreases predicates, predicates.len() - from,
{
    if 0 <= from < predicates.len() {
        all_truth(predicates, both(truth, truth_of(predicates[from])), from + 1)
    } else {
        truth
    }
}

/// What is known of `truth` or one of the predicates from `from` on.
pub open spec fn any_truth(predicates: Seq<PredicateV>, truth: Truth, from: int) -> Truth
    decreases predicates, predicates.len() - from,
{
    if 0 <= from < predicates.len() {
        any_truth(predicates, either(truth, truth_of(predicates[from])), from + 1)
    } else {
        truth
    }
}

/// What is known of the conjunction of `predicates`.
pub open spec fn conjunction_truth(predicates: Seq<PredicateV>) -> Truth {
    all_truth(predicates, Truth::True, 0)
}

/// The value of a domain value of sort Bool.
pub(crate) fn bool_value(term: &Term) -> (result: Option<bool>)
    ensures
        result == bool_value_of(term@),
{
    proof {
        lemma_term_view(*term);
        reveal_strlit("true");
        reveal_strlit("false");
        assert("true"@.len() != "false"@.len());
    }
    match term {
        Term::DomainValue { sort, value } => {
            if !sort.is_simple("SortBool") {
                None
            } else if is_text(value, "true") {
                Some(true)
            } else if is_text(value, "false") {
                Some(false)
            } else {
                None
            }
        },
        _ => None,
    }
}

/// The domain value of sort Bool for `value`.
pub(crate) fn bool_domain_value(value: bool) -> (term: Term)
    ensures
        term@ == bool_literal(value),
{
    if value {
        Term::domain_value(Sort::simple("SortBool"), "true")
    } else {
        Term::domain_value(Sort::simple("SortBool"), "false")
    }
}

fn bool_term_truth(term: &Term) -> (result: Truth)
    ensures
        result == term_truth(term@),
{
    match bool_value(term) {
        Some(true) => Truth::True,
        Some(false) => Truth::False,
        None => Truth::Unknown,
    }
}

/// What is known of `predicate`.
pub(crate) fn predicate_truth(predicate: &Predicate) -> (result: Truth)
    ensures
        result == truth_of(predicate@),
    decreases predicate,
{
    proof {
        lemma_predicate_view(*predicate);
    }
    match predicate {
        Predicate::True => Truth::True,
        Predicate::False => Truth::False,
        Predicate::Term(term) => bool_term_truth(term),
        Predicate::Equals(left, right) => {
            if left.equals(right) {
                Truth::True
            } else if left.is_constructor_like() && right.is_constructor_like() {
                Truth::False
            } else {
                Truth::Unknown
            }
        },
        Predicate::Not(inner) => not_truth(predicate_truth(inner)),
        Predicate::And(inner) => predicates_truth(inner),
        Predicate::Or(inner) => disjunction_truth(inner),
        Predicate::Implies(left, right) => {
            let left: Truth = predicate_truth(left);
            let right: Truth = predicate_truth(right);
            or_truth(not_truth(left), right)
        },
        Predicate::Iff(left, right) => {
            let left: Truth = predicate_truth(left);
            let right: Truth = predicate_truth(right);
            match (left, right) {
                (Truth::Unknown, _) => Truth::Unknown,
                (_, Truth::Unknown) => Truth::Unknown,
                _ => if left == right {
                    Truth::True
                } else {
                    Truth::False
                },
            }
        },
        Predicate::Ceil(term) => {
            if term.is_constructor_like() {
                Truth::True
            } else {
                Truth::Unknown
            }
        },
        Predicate::Floor(_) | Predicate::In(_, _) => Truth::Unknown,
        Predicate::Exists(_, _) | Predicate::Forall(_, _) => Truth::Unknown,
    }
}

/// What is known of the conjunction of `predicates`.
pub(crate) fn predicates_truth(predicates: &Vec<Predicate>) -> (result: Truth)
    ensures
        result == conjunction_truth(deep(predicates@)),
    decreases predicates,
{
    let mut truth: Truth = Truth::True;
    let mut i: usize = 0;
    while i < predicates.len()
        invariant
            i <= predicates.len(),
            all_truth(deep(predicates@), Truth::True, 0) == all_truth(
                deep(predicates@),
                truth,
                i as int,
            ),
        decreases predicates.len() - i,
    {
        assert(deep(predicates@)[i as int] == predicates[i as int]@);
        truth = and_truth(truth, predicate_truth(&predicates[i]));
        i += 1;
    }
    truth
}

fn disjunction_truth(predicates: &Vec<Predicate>) -> (result: Truth)
    ensures
        result == any_truth(deep(predicates@), Truth::False, 0),
    decreases predicates,
{
    let mut truth: Truth = Truth::False;
    let mut i: usize = 0;
    while i < predicates.len()
        invariant
            i <= predicates.len(),
            any_truth(deep(predicates@), Truth::False, 0) == any_truth(
                deep(predicates@),
                truth,
                i as int,
            ),
        decreases predicates.len() - i,
    {
        assert(deep(predicates@)[i as int] == predicates[i as int]@);
        truth = or_truth(truth, predicate_truth(&predicates[i]));
        i += 1;
    }
    truth
}

// ---------------------------------------------------------------------------------------------
// Laws
// ---------------------------------------------------------------------------------------------
/// A conjunction is known to be false exactly when one of its parts is.
pub proof fn law_conjunction_false(predicates: Seq<PredicateV>)
    ensures
        conjunction_truth(predicates) is False <==> exists|i: int|
            0 <= i < predicates.len() && truth_of(#[trigger] predicates[i]) is False,
{
    lemma_all_false(predicates, Truth::True, 0);
}

proof fn lemma_all_false(predicates: Seq<PredicateV>, truth: Truth, from: int)
    requires
        0 <= from <= predicates.len(),
    ensures
        all_truth(predicates, truth, from) is False <==> truth is False || exists|i: int|
            from <= i < predicates.len() && truth_of(#[trigger] predicates[i]) is False,
    decreases predicates.len() - from,
{
    if from < predicates.len() {
        lemma_all_false(predicates, both(truth, truth_of(predicates[from])), from + 1);
    }
}

/// A conjunction is known to be true exactly when all of its parts are.
pub proof fn law_conjunction_true(predicates: Seq<PredicateV>)
    ensures
        conjunction_truth(predicates) is True <==> forall|i: int|
            0 <= i < predicates.len() ==> truth_of(#[trigger] predicates[i]) is True,
{
    lemma_all_true(predicates, Truth::True, 0);
}

proof fn lemma_all_true(predicates: Seq<PredicateV>, truth: Truth, from: int)
    requires
        0 <= from <= predicates.len(),
    ensures
        all_truth(predicates, truth, from) is True <==> truth is True && forall|i: int|
            from <= i < predicates.len() ==> truth_of(#[trigger] predicates[i]) is True,
    decreases predicates.len() - from,
{
    if from < predicates.len() {
        lemma_all_true(predicates, both(truth, truth_of(predicates[from])), from + 1);
    }
}

/// A disjunction is known to be true exactly when one of its parts is, and known to be false
/// exactly when all of its parts are.
pub proof fn law_disjunction(predicates: Seq<PredicateV>)
    ensures
        truth_of(PredicateV::Or(predicates)) is True <==> exists|i: int|
            0 <= i < predicates.len() && truth_of(#[trigger] predicates[i]) is True,
        truth_of(PredicateV::Or(predicates)) is False <==> forall|i: int|
            0 <= i < predicates.len() ==> truth_of(#[trigger] predicates[i]) is False,
{
    lemma_any(predicates, Truth::False, 0);
}

proof fn lemma_any(predicates: Seq<PredicateV>, truth: Truth, from: int)
    requires
        0 <= from <= predicates.len(),
    ensures
        any_truth(predicates, truth, from) is True <==> truth is True || exists|i: int|
            from <= i < predicates.len() && truth_of(#[trigger] predicates[i]) is True,
        any_truth(predicates, truth, from) is False <==> truth is False && forall|i: int|
            from <= i < predicates.len() ==> truth_of(#[trigger] predicates[i]) is False,
    decreases predicates.len() - from,
{
    if from < predicates.len() {
        lemma_any(predicates, either(truth, truth_of(predicates[from])), from + 1);
    }
}

/// What is known of a conjunction follows from what is known of its parts by De Morgan's law: the
/// negation of a conjunction and the disjunction of the negations are known alike.
pub proof fn law_de_morgan(left: Truth, right: Truth)
    ensures
        opposite(both(left, right)) == either(opposite(left), opposite(right)),
        opposite(either(left, right)) == both(opposite(left), opposite(right)),
{
}

} // verus!
