//! Predicates on terms.

use vstd::prelude::*;
use crate::construct::{collect_variables, variables_into, variables_of};
use crate::keys::{lemma_part, lemma_parts, lemma_term, lemma_variable};
use crate::model::{deep, group_deep, Value};
use crate::ops::{
    extend_sorted, extended, push_term_key, push_variable_key, term_key, variable_key, Keyed,
};
use crate::term::{Term, TermV, Variable, VariableV};

verus! {

broadcast use group_deep;

/// A predicate.
#[derive(Debug, PartialEq, Eq)]
pub enum Predicate {
    True,
    False,
    Term(Term),
    Equals(Term, Term),
    Ceil(Term),
    Floor(Term),
    In(Term, Term),
    Not(Box<Predicate>),
    And(Vec<Predicate>),
    Or(Vec<Predicate>),
    Implies(Box<Predicate>, Box<Predicate>),
    Iff(Box<Predicate>, Box<Predicate>),
    Exists(Variable, Box<Predicate>),
    Forall(Variable, Box<Predicate>),
}

/// The view of a [`Predicate`].
pub enum PredicateV {
    True,
    False,
    Term(TermV),
    Equals(TermV, TermV),
    Ceil(TermV),
    Floor(TermV),
    In(TermV, TermV),
    Not(Box<PredicateV>),
    And(Seq<PredicateV>),
    Or(Seq<PredicateV>),
    Implies(Box<PredicateV>, Box<PredicateV>),
    Iff(Box<PredicateV>, Box<PredicateV>),
    Exists(VariableV, Box<PredicateV>),
    Forall(VariableV, Box<PredicateV>),
}

/// The view of a predicate.
#[verifier::opaque]
pub open spec fn predicate_view(predicate: Predicate) -> PredicateV
    decreases predicate,
{
    match predicate {
        Predicate::True => PredicateV::True,
        Predicate::False => PredicateV::False,
        Predicate::Term(term) => PredicateV::Term(term@),
        Predicate::Equals(left, right) => PredicateV::Equals(left@, right@),
        Predicate::Ceil(term) => PredicateV::Ceil(term@),
        Predicate::Floor(term) => PredicateV::Floor(term@),
        Predicate::In(left, right) => PredicateV::In(left@, right@),
        Predicate::Not(inner) => PredicateV::Not(Box::new(predicate_view(*inner))),
        Predicate::And(inner) => PredicateV::And(
            Seq::new(
                inner@.len(),
                |i: int|
                    if 0 <= i < inner@.len() {
                        predicate_view(inner@[i])
                    } else {
                        arbitrary()
                    },
            ),
        ),
        Predicate::Or(inner) => PredicateV::Or(
            Seq::new(
                inner@.len(),
                |i: int|
                    if 0 <= i < inner@.len() {
                        predicate_view(inner@[i])
                    } else {
                        arbitrary()
                    },
            ),
        ),
        Predicate::Implies(left, right) => PredicateV::Implies(
            Box::new(predicate_view(*left)),
            Box::new(predicate_view(*right)),
        ),
        Predicate::Iff(left, right) => PredicateV::Iff(
            Box::new(predicate_view(*left)),
            Box::new(predicate_view(*right)),
        ),
        Predicate::Exists(variable, inner) => PredicateV::Exists(
            variable@,
            Box::new(predicate_view(*inner)),
        ),
        Predicate::Forall(variable, inner) => PredicateV::Forall(
            variable@,
            Box::new(predicate_view(*inner)),
        ),
    }
}

impl View for Predicate {
    type V = PredicateV;

    open spec fn view(&self) -> PredicateV {
        predicate_view(*self)
    }
}

impl DeepView for Predicate {
    type V = PredicateV;

    open spec fn deep_view(&self) -> PredicateV {
        self@
    }
}

pub broadcast proof fn lemma_predicate_view(predicate: Predicate)
    ensures
        #[trigger] predicate_view(predicate) == (match predicate {
            Predicate::True => PredicateV::True,
            Predicate::False => PredicateV::False,
            Predicate::Term(term) => PredicateV::Term(term@),
            Predicate::Equals(left, right) => PredicateV::Equals(left@, right@),
            Predicate::Ceil(term) => PredicateV::Ceil(term@),
            Predicate::Floor(term) => PredicateV::Floor(term@),
            Predicate::In(left, right) => PredicateV::In(left@, right@),
            Predicate::Not(inner) => PredicateV::Not(Box::new(inner@)),
            Predicate::And(inner) => PredicateV::And(deep(inner@)),
            Predicate::Or(inner) => PredicateV::Or(deep(inner@)),
            Predicate::Implies(left, right) => PredicateV::Implies(
                Box::new(left@),
                Box::new(right@),
            ),
            Predicate::Iff(left, right) => PredicateV::Iff(Box::new(left@), Box::new(right@)),
            Predicate::Exists(variable, inner) => PredicateV::Exists(variable@, Box::new(inner@)),
            Predicate::Forall(variable, inner) => PredicateV::Forall(variable@, Box::new(inner@)),
        }),
{
    reveal(predicate_view);
    match predicate {
        Predicate::And(inner) => {
            assert(predicate_view(predicate)->And_0 =~= deep(inner@));
        },
        Predicate::Or(inner) => {
            assert(predicate_view(predicate)->Or_0 =~= deep(inner@));
        },
        _ => {},
    }
}

fn duplicate_predicates(predicates: &Vec<Predicate>) -> (copies: Vec<Predicate>)
    ensures
        deep(copies@) == deep(predicates@),
    decreases predicates,
{
    let mut copies: Vec<Predicate> = Vec::new();
    let mut i: usize = 0;
    while i < predicates.len()
        invariant
            i <= predicates.len(),
            copies.len() == i,
            forall|j: int| 0 <= j < i ==> copies[j]@ == predicates[j]@,
        decreases predicates.len() - i,
    {
        copies.push(predicates[i].duplicate());
        i += 1;
    }
    assert(deep(copies@) =~= deep(predicates@));
    copies
}

fn equal_predicates(left: &Vec<Predicate>, right: &Vec<Predicate>) -> (same: bool)
    ensures
        same == (deep(left@) == deep(right@)),
    decreases left,
{
    if left.len() != right.len() {
        return false;
    }
    let mut i: usize = 0;
    while i < left.len()
        invariant
            i <= left.len(),
            left.len() == right.len(),
            forall|j: int| 0 <= j < i ==> left[j]@ == right[j]@,
        decreases left.len() - i,
    {
        if !left[i].equals(&right[i]) {
            assert(deep(left@)[i as int] != deep(right@)[i as int]);
            return false;
        }
        i += 1;
    }
    assert(deep(left@) =~= deep(right@));
    true
}

impl Value for Predicate {
    fn duplicate(&self) -> (copy: Self)
        decreases self,
    {
        let copy = match self {
            Predicate::True => Predicate::True,
            Predicate::False => Predicate::False,
            Predicate::Term(term) => Predicate::Term(term.duplicate()),
            Predicate::Equals(left, right) => Predicate::Equals(
                left.duplicate(),
                right.duplicate(),
            ),
            Predicate::Ceil(term) => Predicate::Ceil(term.duplicate()),
            Predicate::Floor(term) => Predicate::Floor(term.duplicate()),
            Predicate::In(left, right) => Predicate::In(left.duplicate(), right.duplicate()),
            Predicate::Not(inner) => Predicate::Not(Box::new(inner.duplicate())),
            Predicate::And(inner) => Predicate::And(duplicate_predicates(inner)),
            Predicate::Or(inner) => Predicate::Or(duplicate_predicates(inner)),
            Predicate::Implies(left, right) => Predicate::Implies(
                Box::new(left.duplicate()),
                Box::new(right.duplicate()),
            ),
            Predicate::Iff(left, right) => Predicate::Iff(
                Box::new(left.duplicate()),
                Box::new(right.duplicate()),
            ),
            Predicate::Exists(variable, inner) => Predicate::Exists(
                variable.duplicate(),
                Box::new(inner.duplicate()),
            ),
            Predicate::Forall(variable, inner) => Predicate::Forall(
                variable.duplicate(),
                Box::new(inner.duplicate()),
            ),
        };
        proof {
            lemma_predicate_view(*self);
            lemma_predicate_view(copy);
        }
        copy
    }

    fn equals(&self, other: &Self) -> (same: bool)
        decreases self,
    {
        proof {
            lemma_predicate_view(*self);
            lemma_predicate_view(*other);
        }
        match (self, other) {
            (Predicate::True, Predicate::True) => true,
            (Predicate::False, Predicate::False) => true,
            (Predicate::Term(left), Predicate::Term(right)) => left.equals(right),
            (Predicate::Equals(a, b), Predicate::Equals(c, d)) => a.equals(c) && b.equals(d),
            (Predicate::Ceil(left), Predicate::Ceil(right)) => left.equals(right),
            (Predicate::Floor(left), Predicate::Floor(right)) => left.equals(right),
            (Predicate::In(a, b), Predicate::In(c, d)) => a.equals(c) && b.equals(d),
            (Predicate::Not(left), Predicate::Not(right)) => left.equals(right),
            (Predicate::And(left), Predicate::And(right)) => equal_predicates(left, right),
            (Predicate::Or(left), Predicate::Or(right)) => equal_predicates(left, right),
            (Predicate::Implies(a, b), Predicate::Implies(c, d)) => a.equals(c) && b.equals(d),
            (Predicate::Iff(a, b), Predicate::Iff(c, d)) => a.equals(c) && b.equals(d),
            (Predicate::Exists(v, left), Predicate::Exists(w, right)) => v.equals(w) && left.equals(
                right,
            ),
            (Predicate::Forall(v, left), Predicate::Forall(w, right)) => v.equals(w) && left.equals(
                right,
            ),
            _ => false,
        }
    }
}

// ---------------------------------------------------------------------------------------------
// Construction
// ---------------------------------------------------------------------------------------------
impl Predicate {
    /// The predicate that always, or never, holds.
    pub fn constant(value: bool) -> (predicate: Self)
        ensures
            predicate@ == if value {
                PredicateV::True
            } else {
                PredicateV::False
            },
    {
        let predicate = if value {
            Predicate::True
        } else {
            Predicate::False
        };
        proof {
            lemma_predicate_view(predicate);
        }
        predicate
    }

    /// A term of sort Bool that is true.
    pub fn of_term(term: Term) -> (predicate: Self)
        ensures
            predicate@ == PredicateV::Term(term@),
    {
        let predicate = Predicate::Term(term);
        proof {
            lemma_predicate_view(predicate);
        }
        predicate
    }

    /// Two terms that are equal.
    pub fn equality(left: Term, right: Term) -> (predicate: Self)
        ensures
            predicate@ == PredicateV::Equals(left@, right@),
    {
        let predicate = Predicate::Equals(left, right);
        proof {
            lemma_predicate_view(predicate);
        }
        predicate
    }

    /// A term that is defined.
    pub fn ceil(term: Term) -> (predicate: Self)
        ensures
            predicate@ == PredicateV::Ceil(term@),
    {
        let predicate = Predicate::Ceil(term);
        proof {
            lemma_predicate_view(predicate);
        }
        predicate
    }

    /// A term that is total.
    pub fn floor(term: Term) -> (predicate: Self)
        ensures
            predicate@ == PredicateV::Floor(term@),
    {
        let predicate = Predicate::Floor(term);
        proof {
            lemma_predicate_view(predicate);
        }
        predicate
    }

    /// A term that is an instance of another.
    pub fn member(left: Term, right: Term) -> (predicate: Self)
        ensures
            predicate@ == PredicateV::In(left@, right@),
    {
        let predicate = Predicate::In(left, right);
        proof {
            lemma_predicate_view(predicate);
        }
        predicate
    }

    /// The negation of a predicate.
    pub fn negation(inner: Predicate) -> (predicate: Self)
        ensures
            predicate@ == PredicateV::Not(Box::new(inner@)),
    {
        let predicate = Predicate::Not(Box::new(inner));
        proof {
            lemma_predicate_view(predicate);
        }
        predicate
    }

    /// The conjunction of predicates.
    pub fn conjunction(inner: Vec<Predicate>) -> (predicate: Self)
        ensures
            predicate@ == PredicateV::And(deep(inner@)),
    {
        let predicate = Predicate::And(inner);
        proof {
            lemma_predicate_view(predicate);
        }
        predicate
    }

    /// The disjunction of predicates.
    pub fn disjunction(inner: Vec<Predicate>) -> (predicate: Self)
        ensures
            predicate@ == PredicateV::Or(deep(inner@)),
    {
        let predicate = Predicate::Or(inner);
        proof {
            lemma_predicate_view(predicate);
        }
        predicate
    }

    /// An implication.
    pub fn implication(left: Predicate, right: Predicate) -> (predicate: Self)
        ensures
            predicate@ == PredicateV::Implies(Box::new(left@), Box::new(right@)),
    {
        let predicate = Predicate::Implies(Box::new(left), Box::new(right));
        proof {
            lemma_predicate_view(predicate);
        }
        predicate
    }

    /// An equivalence.
    pub fn equivalence(left: Predicate, right: Predicate) -> (predicate: Self)
        ensures
            predicate@ == PredicateV::Iff(Box::new(left@), Box::new(right@)),
    {
        let predicate = Predicate::Iff(Box::new(left), Box::new(right));
        proof {
            lemma_predicate_view(predicate);
        }
        predicate
    }

    /// A predicate that holds for some value of a variable.
    pub fn for_some(variable: Variable, inner: Predicate) -> (predicate: Self)
        ensures
            predicate@ == PredicateV::Exists(variable@, Box::new(inner@)),
    {
        let predicate = Predicate::Exists(variable, Box::new(inner));
        proof {
            lemma_predicate_view(predicate);
        }
        predicate
    }

    /// A predicate that holds for all values of a variable.
    pub fn for_all(variable: Variable, inner: Predicate) -> (predicate: Self)
        ensures
            predicate@ == PredicateV::Forall(variable@, Box::new(inner@)),
    {
        let predicate = Predicate::Forall(variable, Box::new(inner));
        proof {
            lemma_predicate_view(predicate);
        }
        predicate
    }
}

// ---------------------------------------------------------------------------------------------
// Keys
// ---------------------------------------------------------------------------------------------
/// The key of a predicate.
pub open spec fn predicate_key(predicate: PredicateV) -> Seq<u32>
    decreases predicate, 0int,
{
    match predicate {
        PredicateV::True => seq![1u32],
        PredicateV::False => seq![2u32],
        PredicateV::Term(term) => seq![3u32] + term_key(term),
        PredicateV::Equals(left, right) => seq![4u32] + term_key(left) + term_key(right),
        PredicateV::Ceil(term) => seq![5u32] + term_key(term),
        PredicateV::Floor(term) => seq![6u32] + term_key(term),
        PredicateV::In(left, right) => seq![7u32] + term_key(left) + term_key(right),
        PredicateV::Not(inner) => seq![8u32] + predicate_key(*inner),
        PredicateV::And(inner) => seq![9u32] + predicate_keys(inner, 0),
        PredicateV::Or(inner) => seq![10u32] + predicate_keys(inner, 0),
        PredicateV::Implies(left, right) => seq![11u32] + predicate_key(*left) + predicate_key(
            *right,
        ),
        PredicateV::Iff(left, right) => seq![12u32] + predicate_key(*left) + predicate_key(*right),
        PredicateV::Exists(variable, inner) => seq![13u32] + variable_key(variable) + predicate_key(
            *inner,
        ),
        PredicateV::Forall(variable, inner) => seq![14u32] + variable_key(variable) + predicate_key(
            *inner,
        ),
    }
}

/// The keys of the predicates from `from` on, closed by a zero.
pub open spec fn predicate_keys(predicates: Seq<PredicateV>, from: int) -> Seq<u32>
    decreases predicates, predicates.len() - from,
{
    if 0 <= from < predicates.len() {
        predicate_key(predicates[from]) + predicate_keys(predicates, from + 1)
    } else {
        seq![0u32]
    }
}

/// Append the key of a predicate.
pub fn push_predicate_key(predicate: &Predicate, output: &mut Vec<u32>)
    ensures
        final(output)@ == old(output)@ + predicate_key(predicate@),
    decreases predicate@, 0int,
{
    proof {
        lemma_predicate_view(*predicate);
    }
    match predicate {
        Predicate::True => {
            output.push(1);
            assert(output@ =~= old(output)@ + predicate_key(predicate@));
        },
        Predicate::False => {
            output.push(2);
            assert(output@ =~= old(output)@ + predicate_key(predicate@));
        },
        Predicate::Term(term) => {
            output.push(3);
            push_term_key(term, output);
            assert(output@ =~= old(output)@ + predicate_key(predicate@));
        },
        Predicate::Equals(left, right) => {
            output.push(4);
            push_term_key(left, output);
            push_term_key(right, output);
            assert(output@ =~= old(output)@ + predicate_key(predicate@));
        },
        Predicate::Ceil(term) => {
            output.push(5);
            push_term_key(term, output);
            assert(output@ =~= old(output)@ + predicate_key(predicate@));
        },
        Predicate::Floor(term) => {
            output.push(6);
            push_term_key(term, output);
            assert(output@ =~= old(output)@ + predicate_key(predicate@));
        },
        Predicate::In(left, right) => {
            output.push(7);
            push_term_key(left, output);
            push_term_key(right, output);
            assert(output@ =~= old(output)@ + predicate_key(predicate@));
        },
        Predicate::Not(inner) => {
            output.push(8);
            push_predicate_key(inner, output);
            assert(output@ =~= old(output)@ + predicate_key(predicate@));
        },
        Predicate::And(inner) => {
            output.push(9);
            assert(decreases_to!(predicate@ => predicate@->And_0));
            push_predicate_keys(inner, output);
            assert(output@ =~= old(output)@ + predicate_key(predicate@));
        },
        Predicate::Or(inner) => {
            output.push(10);
            assert(decreases_to!(predicate@ => predicate@->Or_0));
            push_predicate_keys(inner, output);
            assert(output@ =~= old(output)@ + predicate_key(predicate@));
        },
        Predicate::Implies(left, right) => {
            output.push(11);
            push_predicate_key(left, output);
            push_predicate_key(right, output);
            assert(output@ =~= old(output)@ + predicate_key(predicate@));
        },
        Predicate::Iff(left, right) => {
            output.push(12);
            push_predicate_key(left, output);
            push_predicate_key(right, output);
            assert(output@ =~= old(output)@ + predicate_key(predicate@));
        },
        Predicate::Exists(variable, inner) => {
            output.push(13);
            push_variable_key(variable, output);
            push_predicate_key(inner, output);
            assert(output@ =~= old(output)@ + predicate_key(predicate@));
        },
        Predicate::Forall(variable, inner) => {
            output.push(14);
            push_variable_key(variable, output);
            push_predicate_key(inner, output);
            assert(output@ =~= old(output)@ + predicate_key(predicate@));
        },
    }
}

fn push_predicate_keys(predicates: &Vec<Predicate>, output: &mut Vec<u32>)
    ensures
        final(output)@ == old(output)@ + predicate_keys(deep(predicates@), 0),
    decreases deep(predicates@), predicates@.len(),
{
    let mut i: usize = 0;
    while i < predicates.len()
        invariant
            i <= predicates.len(),
            output@ + predicate_keys(deep(predicates@), i as int) == old(output)@ + predicate_keys(
                deep(predicates@),
                0,
            ),
        decreases predicates.len() - i,
    {
        let ghost before = output@;
        assert(deep(predicates@)[i as int] == predicates[i as int]@);
        push_predicate_key(&predicates[i], output);
        assert(output@ + predicate_keys(deep(predicates@), i + 1) =~= before + predicate_keys(
            deep(predicates@),
            i as int,
        ));
        i += 1;
    }
    output.push(0);
    assert(output@ =~= old(output)@ + predicate_keys(deep(predicates@), 0));
}

impl Keyed for Predicate {
    open spec fn key(view: PredicateV) -> Seq<u32> {
        predicate_key(view)
    }

    fn push_key(&self, output: &mut Vec<u32>) {
        push_predicate_key(self, output);
    }

    proof fn lemma_decodes(
        left: PredicateV,
        right: PredicateV,
        left_rest: Seq<u32>,
        right_rest: Seq<u32>,
    ) {
        lemma_predicate(left, right, left_rest, right_rest);
    }
}

/// What the first number of a key tells of a predicate.
spec fn predicate_number(predicate: PredicateV) -> u32 {
    match predicate {
        PredicateV::True => 1,
        PredicateV::False => 2,
        PredicateV::Term(_) => 3,
        PredicateV::Equals(..) => 4,
        PredicateV::Ceil(_) => 5,
        PredicateV::Floor(_) => 6,
        PredicateV::In(..) => 7,
        PredicateV::Not(_) => 8,
        PredicateV::And(_) => 9,
        PredicateV::Or(_) => 10,
        PredicateV::Implies(..) => 11,
        PredicateV::Iff(..) => 12,
        PredicateV::Exists(..) => 13,
        PredicateV::Forall(..) => 14,
    }
}

/// The key of a predicate behind its first number and in front of a rest, part by part.
spec fn predicate_parts(predicate: PredicateV, rest: Seq<u32>) -> Seq<u32> {
    match predicate {
        PredicateV::True | PredicateV::False => rest,
        PredicateV::Term(term) | PredicateV::Ceil(term) | PredicateV::Floor(term) => term_key(term)
            + rest,
        PredicateV::Equals(left, right) | PredicateV::In(left, right) => term_key(left) + (term_key(
            right,
        ) + rest),
        PredicateV::Not(inner) => predicate_key(*inner) + rest,
        PredicateV::And(inner) | PredicateV::Or(inner) => predicate_keys(inner, 0) + rest,
        PredicateV::Implies(left, right) | PredicateV::Iff(left, right) => predicate_key(*left) + (
        predicate_key(*right) + rest),
        PredicateV::Exists(variable, inner) | PredicateV::Forall(variable, inner) => variable_key(
            variable,
        ) + (predicate_key(*inner) + rest),
    }
}

proof fn lemma_predicate_parts(predicate: PredicateV, rest: Seq<u32>)
    ensures
        (predicate_key(predicate) + rest)[0] == predicate_number(predicate),
        (predicate_key(predicate) + rest).skip(1) == predicate_parts(predicate, rest),
{
    let number = predicate_number(predicate);
    match predicate {
        PredicateV::True | PredicateV::False => {
            assert((predicate_key(predicate) + rest).skip(1) =~= rest);
        },
        PredicateV::Term(term) | PredicateV::Ceil(term) | PredicateV::Floor(term) => {
            lemma_part(number, term_key(term), rest);
        },
        PredicateV::Equals(left, right) | PredicateV::In(left, right) => {
            lemma_parts(number, term_key(left), term_key(right), rest);
        },
        PredicateV::Not(inner) => {
            lemma_part(number, predicate_key(*inner), rest);
        },
        PredicateV::And(inner) | PredicateV::Or(inner) => {
            lemma_part(number, predicate_keys(inner, 0), rest);
        },
        PredicateV::Implies(left, right) | PredicateV::Iff(left, right) => {
            lemma_parts(number, predicate_key(*left), predicate_key(*right), rest);
        },
        PredicateV::Exists(variable, inner) | PredicateV::Forall(variable, inner) => {
            lemma_parts(number, variable_key(variable), predicate_key(*inner), rest);
        },
    }
}

/// The key of a predicate tells where it ends, and the predicate.
#[verifier::spinoff_prover]
pub proof fn lemma_predicate(
    left: PredicateV,
    right: PredicateV,
    left_rest: Seq<u32>,
    right_rest: Seq<u32>,
)
    requires
        predicate_key(left) + left_rest == predicate_key(right) + right_rest,
    ensures
        left == right,
        left_rest == right_rest,
    decreases left, 0int,
{
    lemma_predicate_parts(left, left_rest);
    lemma_predicate_parts(right, right_rest);
    match (left, right) {
        (PredicateV::Term(a), PredicateV::Term(b)) | (PredicateV::Ceil(a), PredicateV::Ceil(b)) | (
            PredicateV::Floor(a),
            PredicateV::Floor(b),
        ) => {
            lemma_term(a, b, left_rest, right_rest);
        },
        (PredicateV::Equals(a, c), PredicateV::Equals(b, d)) | (
            PredicateV::In(a, c),
            PredicateV::In(b, d),
        ) => {
            lemma_term(a, b, term_key(c) + left_rest, term_key(d) + right_rest);
            lemma_term(c, d, left_rest, right_rest);
        },
        (PredicateV::Not(a), PredicateV::Not(b)) => {
            lemma_predicate(*a, *b, left_rest, right_rest);
        },
        (PredicateV::And(a), PredicateV::And(b)) | (PredicateV::Or(a), PredicateV::Or(b)) => {
            lemma_predicates(a, b, 0, left_rest, right_rest);
            assert(a =~= b);
        },
        (PredicateV::Implies(a, c), PredicateV::Implies(b, d)) | (
            PredicateV::Iff(a, c),
            PredicateV::Iff(b, d),
        ) => {
            lemma_predicate(*a, *b, predicate_key(*c) + left_rest, predicate_key(*d) + right_rest);
            lemma_predicate(*c, *d, left_rest, right_rest);
        },
        (PredicateV::Exists(a, c), PredicateV::Exists(b, d)) | (
            PredicateV::Forall(a, c),
            PredicateV::Forall(b, d),
        ) => {
            lemma_variable(a, b, predicate_key(*c) + left_rest, predicate_key(*d) + right_rest);
            lemma_predicate(*c, *d, left_rest, right_rest);
        },
        _ => {},
    }
}

proof fn lemma_predicates(
    left: Seq<PredicateV>,
    right: Seq<PredicateV>,
    from: int,
    left_rest: Seq<u32>,
    right_rest: Seq<u32>,
)
    requires
        0 <= from <= left.len(),
        from <= right.len(),
        predicate_keys(left, from) + left_rest == predicate_keys(right, from) + right_rest,
    ensures
        left.len() == right.len(),
        forall|i: int| from <= i < left.len() ==> left[i] == right[i],
        left_rest == right_rest,
    decreases left, left.len() - from,
{
    let all = predicate_keys(left, from) + left_rest;
    let other = predicate_keys(right, from) + right_rest;
    assert(all[0] == other[0]);
    if from < left.len() {
        assert(predicate_key(left[from])[0] != 0);
        assert(all[0] == predicate_key(left[from])[0]);
    }
    if from < right.len() {
        assert(predicate_key(right[from])[0] != 0);
        assert(other[0] == predicate_key(right[from])[0]);
    }
    if from < left.len() && from < right.len() {
        let tail = predicate_keys(left, from + 1) + left_rest;
        let other_tail = predicate_keys(right, from + 1) + right_rest;
        assert(all =~= predicate_key(left[from]) + tail);
        assert(other =~= predicate_key(right[from]) + other_tail);
        lemma_predicate(left[from], right[from], tail, other_tail);
        lemma_predicates(left, right, from + 1, left_rest, right_rest);
    } else {
        assert(left_rest =~= all.skip(1));
        assert(right_rest =~= other.skip(1));
    }
}

// ---------------------------------------------------------------------------------------------
// Free variables
// ---------------------------------------------------------------------------------------------
/// The first `count` of `variables` but `variable`.
pub open spec fn without_upto(
    variables: Seq<VariableV>,
    variable: VariableV,
    count: int,
) -> Seq<VariableV>
    decreases count,
{
    if count <= 0 {
        Seq::empty()
    } else {
        let before = without_upto(variables, variable, count - 1);
        if variables[count - 1] == variable {
            before
        } else {
            before.push(variables[count - 1])
        }
    }
}

/// `variables` without `variable`.
pub open spec fn without(variables: Seq<VariableV>, variable: VariableV) -> Seq<VariableV> {
    without_upto(variables, variable, variables.len() as int)
}

/// The variables but the given one.
pub fn remove_variable(variables: &Vec<Variable>, variable: &Variable) -> (result: Vec<Variable>)
    ensures
        deep(result@) == without(deep(variables@), variable@),
{
    let mut result: Vec<Variable> = Vec::new();
    let mut i: usize = 0;
    while i < variables.len()
        invariant
            i <= variables.len(),
            deep(result@) == without_upto(deep(variables@), variable@, i as int),
        decreases variables.len() - i,
    {
        assert(deep(variables@)[i as int] == variables[i as int]@);
        if !variables[i].equals(variable) {
            result.push(variables[i].duplicate());
        }
        i += 1;
    }
    result
}

/// The sorted set of the free variables of a predicate.
pub open spec fn free_variables(predicate: PredicateV) -> Seq<VariableV>
    decreases predicate, 0int,
{
    match predicate {
        PredicateV::True | PredicateV::False => Seq::empty(),
        PredicateV::Term(term) | PredicateV::Ceil(term) | PredicateV::Floor(term) => variables_of(
            term,
        ),
        PredicateV::Equals(left, right) | PredicateV::In(left, right) => variables_into(
            right,
            variables_of(left),
        ),
        PredicateV::Not(inner) => free_variables(*inner),
        PredicateV::And(inner) | PredicateV::Or(inner) => all_free_variables(
            inner,
            0,
            Seq::empty(),
        ),
        PredicateV::Implies(left, right) | PredicateV::Iff(left, right) => extended::<Variable>(
            free_variables(*left),
            free_variables(*right),
        ),
        PredicateV::Exists(variable, inner) | PredicateV::Forall(variable, inner) => without(
            free_variables(*inner),
            variable,
        ),
    }
}

/// The sorted set `found` with the free variables of the predicates from `from` on in it.
pub open spec fn all_free_variables(
    predicates: Seq<PredicateV>,
    from: int,
    found: Seq<VariableV>,
) -> Seq<VariableV>
    decreases predicates, predicates.len() - from,
{
    if 0 <= from < predicates.len() {
        all_free_variables(
            predicates,
            from + 1,
            extended::<Variable>(found, free_variables(predicates[from])),
        )
    } else {
        found
    }
}

impl Predicate {
    /// The sorted set of the free variables.
    pub fn free_variables(&self) -> (result: Vec<Variable>)
        ensures
            deep(result@) == free_variables(self@),
        decreases self,
    {
        proof {
            lemma_predicate_view(*self);
        }
        match self {
            Predicate::True | Predicate::False => Vec::new(),
            Predicate::Term(term) | Predicate::Ceil(term) | Predicate::Floor(term) => {
                term.variables()
            },
            Predicate::Equals(left, right) | Predicate::In(left, right) => {
                let mut found = left.variables();
                collect_variables(right, &mut found);
                found
            },
            Predicate::Not(inner) => inner.free_variables(),
            Predicate::And(inner) | Predicate::Or(inner) => {
                let mut found: Vec<Variable> = Vec::new();
                collect_free_variables(inner, &mut found);
                found
            },
            Predicate::Implies(left, right) | Predicate::Iff(left, right) => {
                let mut found = left.free_variables();
                let more = right.free_variables();
                extend_sorted(&mut found, &more);
                found
            },
            Predicate::Exists(variable, inner) | Predicate::Forall(variable, inner) => {
                let found = inner.free_variables();
                remove_variable(&found, variable)
            },
        }
    }
}

/// Add the free variables of the predicates to the sorted set `found`.
pub fn collect_free_variables(predicates: &Vec<Predicate>, found: &mut Vec<Variable>)
    ensures
        deep(final(found)@) == all_free_variables(deep(predicates@), 0, deep(old(found)@)),
    decreases predicates,
{
    let mut i: usize = 0;
    while i < predicates.len()
        invariant
            i <= predicates.len(),
            all_free_variables(deep(predicates@), i as int, deep(found@)) == all_free_variables(
                deep(predicates@),
                0,
                deep(old(found)@),
            ),
        decreases predicates.len() - i,
    {
        assert(deep(predicates@)[i as int] == predicates[i as int]@);
        let more = predicates[i].free_variables();
        extend_sorted(found, &more);
        i += 1;
    }
}

} // verus!
