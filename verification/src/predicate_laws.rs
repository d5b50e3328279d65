//! Free variables of predicates, and what substitution does to them.

use vstd::prelude::*;
use crate::assoc::{assoc, assoc_from};
use crate::construct::{lemma_variables_into, occurs, variables_of};
use crate::match_laws::lemma_occurs_child;
use crate::model::{difference, law_difference};
use crate::ops::{children, extended, extended_upto, lemma_child_smaller, lemma_inserted_contains};
use crate::order::lemma_push_contains;
use crate::predicate::{all_free_variables, free_variables, without_upto, PredicateV};
use crate::predicates::{
    conjoined, introduced_quantified, predicate_substituted, predicates_substituted, quantified,
    unbound, unbound_upto,
};
use crate::substitution::{substituted, substituted_child, substituted_children, SubstitutionV};
use crate::term::{TermV, Variable, VariableV};
use crate::value_laws::{all_hold, none_holds, value, Meaning};

verus! {

// ---------------------------------------------------------------------------------------------
// Free variables
// ---------------------------------------------------------------------------------------------
/// Whether a variable occurs in a predicate outside of quantifiers over it.
pub open spec fn is_free(variable: VariableV, predicate: PredicateV) -> bool
    decreases predicate, 0int,
{
    match predicate {
        PredicateV::True => false,
        PredicateV::False => false,
        PredicateV::Term(term) => occurs(variable, term),
        PredicateV::Equals(left, right) => occurs(variable, left) || occurs(variable, right),
        PredicateV::Ceil(term) => occurs(variable, term),
        PredicateV::Floor(term) => occurs(variable, term),
        PredicateV::In(left, right) => occurs(variable, left) || occurs(variable, right),
        PredicateV::Not(inner) => is_free(variable, *inner),
        PredicateV::And(inner) => is_free_from(variable, inner, 0),
        PredicateV::Or(inner) => is_free_from(variable, inner, 0),
        PredicateV::Implies(left, right) => is_free(variable, *left) || is_free(variable, *right),
        PredicateV::Iff(left, right) => is_free(variable, *left) || is_free(variable, *right),
        PredicateV::Exists(bound, inner) => variable != bound && is_free(variable, *inner),
        PredicateV::Forall(bound, inner) => variable != bound && is_free(variable, *inner),
    }
}

/// The same of one of the predicates from `from` on.
pub open spec fn is_free_from(
    variable: VariableV,
    predicates: Seq<PredicateV>,
    from: int,
) -> bool
    decreases predicates, predicates.len() - from,
{
    if 0 <= from < predicates.len() {
        is_free(variable, predicates[from]) || is_free_from(variable, predicates, from + 1)
    } else {
        false
    }
}

proof fn lemma_extended_contains(
    items: Seq<VariableV>,
    more: Seq<VariableV>,
    count: int,
    variable: VariableV,
)
    requires
        0 <= count <= more.len(),
    ensures
        extended_upto::<Variable>(items, more, count).contains(variable) <==> items.contains(
            variable,
        ) || more.take(count).contains(variable),
    decreases count,
{
    if count > 0 {
        let before = extended_upto::<Variable>(items, more, count - 1);
        lemma_extended_contains(items, more, count - 1, variable);
        lemma_inserted_contains::<Variable>(before, more[count - 1], 0, variable);
        let some = more.take(count);
        assert(some == more.take(count - 1).push(more[count - 1])) by {
            assert(some =~= more.take(count - 1).push(more[count - 1]));
        }
        lemma_push_contains(more.take(count - 1), more[count - 1], variable);
    } else {
        assert(more.take(0) =~= Seq::empty());
    }
}

proof fn lemma_joined(items: Seq<VariableV>, more: Seq<VariableV>, variable: VariableV)
    ensures
        extended::<Variable>(items, more).contains(variable) <==> items.contains(variable)
            || more.contains(variable),
{
    lemma_extended_contains(items, more, more.len() as int, variable);
    assert(more.take(more.len() as int) =~= more);
}

proof fn lemma_without(
    variables: Seq<VariableV>,
    bound: VariableV,
    count: int,
    variable: VariableV,
)
    requires
        0 <= count <= variables.len(),
    ensures
        without_upto(variables, bound, count).contains(variable) <==> variable != bound
            && variables.take(count).contains(variable),
    decreases count,
{
    if count > 0 {
        let before = without_upto(variables, bound, count - 1);
        let last = variables[count - 1];
        lemma_without(variables, bound, count - 1, variable);
        assert(variables.take(count) =~= variables.take(count - 1).push(last));
        lemma_push_contains(variables.take(count - 1), last, variable);
        lemma_push_contains(before, last, variable);
    } else {
        assert(variables.take(0) =~= Seq::empty());
    }
}

/// The free variables of a predicate are those that occur outside of quantifiers over them.
pub proof fn law_free_variables(predicate: PredicateV, variable: VariableV)
    ensures
        free_variables(predicate).contains(variable) <==> is_free(variable, predicate),
    decreases predicate, 0int,
{
    match predicate {
        PredicateV::Term(term) | PredicateV::Ceil(term) | PredicateV::Floor(term) => {
            lemma_variables_into(term, Seq::empty(), variable);
        },
        PredicateV::Equals(left, right) | PredicateV::In(left, right) => {
            lemma_variables_into(left, Seq::empty(), variable);
            lemma_variables_into(right, variables_of(left), variable);
        },
        PredicateV::Not(inner) => {
            law_free_variables(*inner, variable);
        },
        PredicateV::And(inner) | PredicateV::Or(inner) => {
            lemma_all_free(inner, 0, Seq::empty(), variable);
        },
        PredicateV::Implies(left, right) | PredicateV::Iff(left, right) => {
            law_free_variables(*left, variable);
            law_free_variables(*right, variable);
            lemma_joined(free_variables(*left), free_variables(*right), variable);
        },
        PredicateV::Exists(bound, inner) | PredicateV::Forall(bound, inner) => {
            let all = free_variables(*inner);
            law_free_variables(*inner, variable);
            lemma_without(all, bound, all.len() as int, variable);
            assert(all.take(all.len() as int) =~= all);
        },
        _ => {},
    }
}

proof fn lemma_all_free(
    predicates: Seq<PredicateV>,
    from: int,
    found: Seq<VariableV>,
    variable: VariableV,
)
    requires
        0 <= from <= predicates.len(),
    ensures
        all_free_variables(predicates, from, found).contains(variable) <==> found.contains(variable)
            || is_free_from(variable, predicates, from),
    decreases predicates, predicates.len() - from,
{
    if from < predicates.len() {
        let own = free_variables(predicates[from]);
        law_free_variables(predicates[from], variable);
        lemma_joined(found, own, variable);
        lemma_all_free(predicates, from + 1, extended::<Variable>(found, own), variable);
    }
}

proof fn lemma_free_among(variable: VariableV, predicates: Seq<PredicateV>, from: int)
    requires
        0 <= from,
    ensures
        is_free_from(variable, predicates, from) <==> exists|i: int|
            from <= i < predicates.len() && is_free(variable, #[trigger] predicates[i]),
    decreases predicates.len() - from,
{
    if from < predicates.len() {
        lemma_free_among(variable, predicates, from + 1);
        if is_free(variable, predicates[from]) {
            assert(is_free(variable, predicates[from]));
        }
    }
}

proof fn lemma_quantified(
    predicate: PredicateV,
    variables: Seq<VariableV>,
    from: int,
    variable: VariableV,
)
    requires
        0 <= from <= variables.len(),
    ensures
        is_free(variable, quantified(predicate, variables, from)) <==> is_free(variable, predicate)
            && !variables.skip(from).contains(variable),
    decreases variables.len() - from,
{
    let rest = variables.skip(from);
    if from < variables.len() {
        lemma_quantified(predicate, variables, from + 1, variable);
        let less = variables.skip(from + 1);
        assert(rest[0] == variables[from]);
        if less.contains(variable) {
            let i: int = choose|i: int| 0 <= i < less.len() && less[i] == variable;
            assert(rest[i + 1] == variable);
        }
        if rest.contains(variable) && variable != variables[from] {
            let i: int = choose|i: int| 0 <= i < rest.len() && rest[i] == variable;
            assert(less[i - 1] == variable);
        }
    }
}

/// The free variables of predicates below quantifiers over what they introduce are their own free
/// variables that were known: the others are bound.
pub proof fn law_introduced_variables_are_bound(
    known: Seq<VariableV>,
    predicates: Seq<PredicateV>,
    variable: VariableV,
)
    ensures
        is_free(variable, introduced_quantified(known, predicates)) <==> known.contains(variable)
            && exists|i: int|
            0 <= i < predicates.len() && is_free(variable, #[trigger] predicates[i]),
{
    let condition = conjoined(predicates);
    let bound = difference(free_variables(condition), known);
    lemma_quantified(condition, bound, 0, variable);
    assert(bound.skip(0) =~= bound);
    law_free_variables(condition, variable);
    law_difference(free_variables(condition), known, variable);
    lemma_free_among(variable, predicates, 0);
    if predicates.len() == 1 {
        assert(is_free(variable, predicates[0]) == is_free(variable, condition));
    }
}

// ---------------------------------------------------------------------------------------------
// Substitution
// ---------------------------------------------------------------------------------------------
/// Whether two substitutions do the same to a variable.
pub open spec fn agree_on(
    left: SubstitutionV,
    right: SubstitutionV,
    variable: VariableV,
) -> bool {
    assoc(left, variable) == assoc(right, variable)
}

proof fn lemma_term_agrees(term: TermV, left: SubstitutionV, right: SubstitutionV)
    requires
        forall|variable: VariableV| #[trigger]
            occurs(variable, term) ==> agree_on(left, right, variable),
    ensures
        substituted(term, left) == substituted(term, right),
    decreases term,
{
    if term is Variable {
        assert(occurs(term->Variable_0, term));
    } else {
        let first = substituted_children(term, left);
        let second = substituted_children(term, right);
        assert forall|i: int| 0 <= i < children(term).len() implies first[i] == second[i] by {
            lemma_child_smaller(term, i);
            assert forall|variable: VariableV| #[trigger]
                occurs(variable, children(term)[i]) implies agree_on(left, right, variable) by {
                lemma_occurs_child(variable, term, 0, i);
                assert(occurs(variable, term));
            }
            assert(first[i] == substituted_child(term, i, left));
            assert(second[i] == substituted_child(term, i, right));
            lemma_term_agrees(children(term)[i], left, right);
        }
        assert(first =~= second);
    }
}

proof fn lemma_assoc_pushed(
    items: SubstitutionV,
    item: (VariableV, TermV),
    variable: VariableV,
    from: int,
)
    requires
        0 <= from <= items.len(),
    ensures
        assoc_from(items.push(item), variable, from) == (match assoc_from(items, variable, from) {
            Some(term) => Some(term),
            None => if item.0 == variable {
                Some(item.1)
            } else {
                None
            },
        }),
    decreases items.len() - from,
{
    let more = items.push(item);
    if from < items.len() {
        assert(more[from] == items[from]);
        lemma_assoc_pushed(items, item, variable, from + 1);
    } else {
        assert(more[from] == item);
        assert(assoc_from(more, variable, from + 1) is None);
    }
}

proof fn lemma_unbound(
    substitution: SubstitutionV,
    bound: VariableV,
    count: int,
    variable: VariableV,
)
    requires
        0 <= count <= substitution.len(),
    ensures
        assoc(unbound_upto(substitution, bound, count), variable) == (if variable == bound {
            None
        } else {
            assoc(substitution.take(count), variable)
        }),
    decreases count,
{
    if count > 0 {
        let before = unbound_upto(substitution, bound, count - 1);
        let last = substitution[count - 1];
        lemma_unbound(substitution, bound, count - 1, variable);
        assert(substitution.take(count) =~= substitution.take(count - 1).push(last));
        lemma_assoc_pushed(substitution.take(count - 1), last, variable, 0);
        lemma_assoc_pushed(before, last, variable, 0);
    } else {
        assert(substitution.take(0) =~= Seq::empty());
    }
}

/// What a substitution makes of a predicate depends only on what it does to the free variables of
/// the predicate: a variable that a quantifier binds is not replaced below it.
pub proof fn law_substitution_sees_free_variables(
    predicate: PredicateV,
    left: SubstitutionV,
    right: SubstitutionV,
)
    requires
        forall|variable: VariableV| #[trigger]
            is_free(variable, predicate) ==> agree_on(left, right, variable),
    ensures
        predicate_substituted(predicate, left) == predicate_substituted(predicate, right),
    decreases predicate, 0int,
{
    match predicate {
        PredicateV::Term(term) | PredicateV::Ceil(term) | PredicateV::Floor(term) => {
            lemma_side_agrees(predicate, term, left, right);
        },
        PredicateV::Equals(first, second) | PredicateV::In(first, second) => {
            lemma_side_agrees(predicate, first, left, right);
            lemma_side_agrees(predicate, second, left, right);
        },
        PredicateV::Not(inner) => {
            lemma_part_agrees(predicate, *inner, left, right);
            law_substitution_sees_free_variables(*inner, left, right);
        },
        PredicateV::And(inner) | PredicateV::Or(inner) => {
            assert forall|i: int| 0 <= i < inner.len() implies predicate_substituted(
                #[trigger] inner[i],
                left,
            ) == predicate_substituted(inner[i], right) by {
                assert forall|variable: VariableV| #[trigger]
                    is_free(variable, inner[i]) implies is_free(variable, predicate) by {
                    lemma_free_among(variable, inner, 0);
                }
                lemma_part_agrees(predicate, inner[i], left, right);
                law_substitution_sees_free_variables(inner[i], left, right);
            }
            assert(predicates_substituted(inner, left) =~= predicates_substituted(inner, right));
        },
        PredicateV::Implies(first, second) | PredicateV::Iff(first, second) => {
            lemma_part_agrees(predicate, *first, left, right);
            lemma_part_agrees(predicate, *second, left, right);
            law_substitution_sees_free_variables(*first, left, right);
            law_substitution_sees_free_variables(*second, left, right);
        },
        PredicateV::Exists(bound, inner) | PredicateV::Forall(bound, inner) => {
            let first = unbound(left, bound);
            let second = unbound(right, bound);
            assert forall|variable: VariableV| #[trigger]
                is_free(variable, *inner) implies agree_on(first, second, variable) by {
                lemma_unbound(left, bound, left.len() as int, variable);
                lemma_unbound(right, bound, right.len() as int, variable);
                assert(left.take(left.len() as int) =~= left);
                assert(right.take(right.len() as int) =~= right);
                if variable != bound {
                    assert(is_free(variable, predicate));
                }
            }
            law_substitution_sees_free_variables(*inner, first, second);
        },
        _ => {},
    }
}

proof fn lemma_side_agrees(
    predicate: PredicateV,
    term: TermV,
    left: SubstitutionV,
    right: SubstitutionV,
)
    requires
        forall|variable: VariableV| #[trigger]
            is_free(variable, predicate) ==> agree_on(left, right, variable),
        forall|variable: VariableV| #[trigger]
            occurs(variable, term) ==> is_free(variable, predicate),
    ensures
        substituted(term, left) == substituted(term, right),
{
    assert forall|variable: VariableV| #[trigger] occurs(variable, term) implies agree_on(
        left,
        right,
        variable,
    ) by {
        assert(is_free(variable, predicate));
    }
    lemma_term_agrees(term, left, right);
}

proof fn lemma_part_agrees(
    predicate: PredicateV,
    part: PredicateV,
    left: SubstitutionV,
    right: SubstitutionV,
)
    requires
        forall|variable: VariableV| #[trigger]
            is_free(variable, predicate) ==> agree_on(left, right, variable),
        forall|variable: VariableV| #[trigger]
            is_free(variable, part) ==> is_free(variable, predicate),
    ensures
        forall|variable: VariableV| #[trigger]
            is_free(variable, part) ==> agree_on(left, right, variable),
{
}

/// A predicate under a substitution has the value of the predicate, where each of its atoms means
/// what it means under the substitution.
pub proof fn law_substitution_keeps_connectives(
    predicate: PredicateV,
    substitution: SubstitutionV,
    meaning: Meaning,
)
    ensures
        value(predicate_substituted(predicate, substitution), meaning) == value(
            predicate,
            |atom: PredicateV| meaning(predicate_substituted(atom, substitution)),
        ),
    decreases predicate, 0int,
{
    let before = |atom: PredicateV| meaning(predicate_substituted(atom, substitution));
    match predicate {
        PredicateV::Not(inner) => {
            law_substitution_keeps_connectives(*inner, substitution, meaning);
        },
        PredicateV::And(inner) => {
            lemma_connected(inner, substitution, meaning, 0);
        },
        PredicateV::Or(inner) => {
            lemma_connected(inner, substitution, meaning, 0);
        },
        PredicateV::Implies(left, right) => {
            law_substitution_keeps_connectives(*left, substitution, meaning);
            law_substitution_keeps_connectives(*right, substitution, meaning);
        },
        PredicateV::Iff(left, right) => {
            law_substitution_keeps_connectives(*left, substitution, meaning);
            law_substitution_keeps_connectives(*right, substitution, meaning);
        },
        _ => {},
    }
}

proof fn lemma_connected(
    predicates: Seq<PredicateV>,
    substitution: SubstitutionV,
    meaning: Meaning,
    from: int,
)
    requires
        0 <= from <= predicates.len(),
    ensures
        ({
            let before = |atom: PredicateV| meaning(predicate_substituted(atom, substitution));
            let made = predicates_substituted(predicates, substitution);
            &&& all_hold(made, meaning, from) == all_hold(predicates, before, from)
            &&& none_holds(made, meaning, from) == none_holds(predicates, before, from)
        }),
    decreases predicates, predicates.len() - from,
{
    if from < predicates.len() {
        let made = predicates_substituted(predicates, substitution);
        assert(made[from] == predicate_substituted(predicates[from], substitution));
        law_substitution_keeps_connectives(predicates[from], substitution, meaning);
        lemma_connected(predicates, substitution, meaning, from + 1);
    }
}

} // verus!
