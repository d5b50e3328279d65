//! What a translation for the solver keeps of a predicate: its value.

use vstd::prelude::*;
use crate::ops::sort_of;
use crate::predicate::PredicateV;
use crate::sexpr::SExprV;
use crate::smt::{
    applied_to, keeps_names, law_predicate_translation_keeps_names, law_translation_keeps_names,
    lemma_keeps_names_transitive, lemma_predicates_keep_names, predicate_translated,
    predicates_translated, term_translated, TranslationStateV,
};
use crate::smt_laws::lemma_term_again;
use crate::term::{simple_sort, TermV};
use crate::value_laws::{
    admissible, admits, all_hold, lemma_all_hold, lemma_none_holds, none_holds, value, Meaning,
};

verus! {

/// What expressions mean to a solver: which are of the sort of truth values, and which hold.
pub struct Reading {
    pub boolean: spec_fn(SExprV) -> bool,
    pub holds: spec_fn(SExprV) -> bool,
}

/// Whether all of `items` are of the sort of truth values.
pub open spec fn all_boolean(reading: Reading, items: Seq<SExprV>) -> bool {
    forall|i: int| 0 <= i < items.len() ==> (reading.boolean)(#[trigger] items[i])
}

/// Whether all of `items` hold.
pub open spec fn all_read(reading: Reading, items: Seq<SExprV>) -> bool {
    forall|i: int| 0 <= i < items.len() ==> (reading.holds)(#[trigger] items[i])
}

/// Whether none of `items` holds.
pub open spec fn none_read(reading: Reading, items: Seq<SExprV>) -> bool {
    forall|i: int| 0 <= i < items.len() ==> !(reading.holds)(#[trigger] items[i])
}

/// Whether a solver takes an operator on truth values for what it is.
pub open spec fn takes(reading: Reading, operator: Seq<char>, items: Seq<SExprV>) -> bool {
    let whole = applied_to(operator, items);
    let held = (reading.holds)(whole);
    all_boolean(reading, items) ==> {
        &&& operator == "not"@ && items.len() == 1 ==> (reading.boolean)(whole) && held
            == !(reading.holds)(items[0])
        &&& operator == "and"@ ==> (reading.boolean)(whole) && held == all_read(reading, items)
        &&& operator == "or"@ ==> (reading.boolean)(whole) && held == !none_read(reading, items)
        &&& operator == "=>"@ && items.len() == 2 ==> (reading.boolean)(whole) && held == ((
        reading.holds)(items[0]) ==> (reading.holds)(items[1]))
        &&& operator == "="@ && items.len() == 2 ==> (reading.boolean)(whole) && held == ((
        reading.holds)(items[0]) == (reading.holds)(items[1]))
    }
}

/// Whether a solver takes all operators and the constants for what they are.
pub open spec fn takes_all(reading: Reading) -> bool {
    &&& (reading.boolean)(SExprV::Atom("true"@))
    &&& (reading.boolean)(SExprV::Atom("false"@))
    &&& (reading.holds)(SExprV::Atom("true"@))
    &&& !(reading.holds)(SExprV::Atom("false"@))
    &&& forall|operator: Seq<char>, items: Seq<SExprV>| #[trigger] takes(reading, operator, items)
}

/// Whether a solver takes the translations of a term of sort Bool, and of an equality of two
/// terms, for what these mean, under the names of `state`.
pub open spec fn interprets(
    reading: Reading,
    meaning: Meaning,
    state: TranslationStateV,
    left: TermV,
    right: TermV,
) -> bool {
    let first = term_translated(left, state).0;
    let second = term_translated(right, state).0;
    &&& first is Ok && sort_of(left) == simple_sort("SortBool"@) ==> {
        &&& (reading.boolean)(first->Ok_0)
        &&& (reading.holds)(first->Ok_0) == meaning(PredicateV::Term(left))
    }
    &&& first is Ok && second is Ok ==> {
        let equality = applied_to("="@, seq![first->Ok_0, second->Ok_0]);
        &&& (reading.boolean)(equality)
        &&& (reading.holds)(equality) == meaning(PredicateV::Equals(left, right))
    }
}

/// The same of all terms.
pub open spec fn interprets_all(
    reading: Reading,
    meaning: Meaning,
    state: TranslationStateV,
) -> bool {
    forall|left: TermV, right: TermV| #[trigger] interprets(reading, meaning, state, left, right)
}

/// Whether the terms that stand as predicates are of sort Bool.
pub open spec fn well_sorted(predicate: PredicateV) -> bool
    decreases predicate, 0int,
{
    match predicate {
        PredicateV::Term(term) => sort_of(term) == simple_sort("SortBool"@),
        PredicateV::Not(inner) => well_sorted(*inner),
        PredicateV::And(inner) => all_well_sorted(inner, 0),
        PredicateV::Or(inner) => all_well_sorted(inner, 0),
        PredicateV::Implies(left, right) => well_sorted(*left) && well_sorted(*right),
        PredicateV::Iff(left, right) => well_sorted(*left) && well_sorted(*right),
        _ => true,
    }
}

/// The same of the predicates from `from` on.
pub open spec fn all_well_sorted(predicates: Seq<PredicateV>, from: int) -> bool
    decreases predicates, predicates.len() - from,
{
    if 0 <= from < predicates.len() {
        well_sorted(predicates[from]) && all_well_sorted(predicates, from + 1)
    } else {
        true
    }
}

/// The translation of a predicate holds for the solver exactly where the predicate holds, under any
/// names that keep those of the translation.
pub proof fn law_translation_keeps_value(
    predicate: PredicateV,
    state: TranslationStateV,
    later: TranslationStateV,
    reading: Reading,
    meaning: Meaning,
)
    requires
        admissible(meaning),
        takes_all(reading),
        interprets_all(reading, meaning, later),
        well_sorted(predicate),
        predicate_translated(predicate, state).0 is Ok,
        keeps_names(predicate_translated(predicate, state).1, later),
    ensures
        ({
            let translation = predicate_translated(predicate, state).0->Ok_0;
            &&& (reading.boolean)(translation)
            &&& (reading.holds)(translation) == value(predicate, meaning)
        }),
    decreases predicate, 0int, 0int,
{
    match predicate {
        PredicateV::Term(term) => {
            lemma_term_again(term, state, later);
            assert(interprets(reading, meaning, later, term, term));
        },
        PredicateV::Equals(left, right) => {
            let between = term_translated(left, state).1;
            law_translation_keeps_names(right, between);
            lemma_keeps_names_transitive(between, term_translated(right, between).1, later);
            lemma_term_again(left, state, later);
            lemma_term_again(right, between, later);
            assert(interprets(reading, meaning, later, left, right));
        },
        PredicateV::Not(inner) => {
            law_translation_keeps_value(*inner, state, later, reading, meaning);
            let one = seq![predicate_translated(*inner, state).0->Ok_0];
            assert(takes(reading, "not"@, one));
            assert(all_boolean(reading, one));
        },
        PredicateV::And(inner) => {
            lemma_parts(inner, state, later, reading, meaning, Seq::empty(), 0);
            let items = predicates_translated(inner, state, Seq::empty(), 0).0->Ok_0;
            assert(takes(reading, "and"@, items));
            lemma_all_hold(inner, meaning, 0);
            lemma_read_values(inner, items, reading, meaning);
        },
        PredicateV::Or(inner) => {
            lemma_parts(inner, state, later, reading, meaning, Seq::empty(), 0);
            let items = predicates_translated(inner, state, Seq::empty(), 0).0->Ok_0;
            assert(takes(reading, "or"@, items));
            lemma_none_holds(inner, meaning, 0);
            lemma_read_values(inner, items, reading, meaning);
        },
        PredicateV::Implies(left, right) => {
            let between = predicate_translated(*left, state).1;
            law_predicate_translation_keeps_names(*right, between);
            lemma_keeps_names_transitive(between, predicate_translated(*right, between).1, later);
            law_translation_keeps_value(*left, state, later, reading, meaning);
            law_translation_keeps_value(*right, between, later, reading, meaning);
            let two = seq![
                predicate_translated(*left, state).0->Ok_0,
                predicate_translated(*right, between).0->Ok_0,
            ];
            assert(takes(reading, "=>"@, two));
            assert(all_boolean(reading, two));
        },
        PredicateV::Iff(left, right) => {
            let between = predicate_translated(*left, state).1;
            law_predicate_translation_keeps_names(*right, between);
            lemma_keeps_names_transitive(between, predicate_translated(*right, between).1, later);
            law_translation_keeps_value(*left, state, later, reading, meaning);
            law_translation_keeps_value(*right, between, later, reading, meaning);
            let two = seq![
                predicate_translated(*left, state).0->Ok_0,
                predicate_translated(*right, between).0->Ok_0,
            ];
            assert(takes(reading, "="@, two));
            assert(all_boolean(reading, two));
        },
        PredicateV::Ceil(term) => {
            assert(admits(meaning, predicate));
        },
        _ => {},
    }
}

/// Whether the translations of the predicates from the start on hold as the predicates do.
spec fn read_as_meant(
    predicates: Seq<PredicateV>,
    items: Seq<SExprV>,
    reading: Reading,
    meaning: Meaning,
) -> bool {
    &&& items.len() <= predicates.len()
    &&& all_boolean(reading, items)
    &&& forall|i: int|
        0 <= i < items.len() ==> (reading.holds)(#[trigger] items[i]) == value(
            predicates[i],
            meaning,
        )
}

proof fn lemma_read_values(
    predicates: Seq<PredicateV>,
    items: Seq<SExprV>,
    reading: Reading,
    meaning: Meaning,
)
    requires
        read_as_meant(predicates, items, reading, meaning),
        items.len() == predicates.len(),
    ensures
        all_read(reading, items) == all_hold(predicates, meaning, 0),
        none_read(reading, items) == none_holds(predicates, meaning, 0),
{
    lemma_all_hold(predicates, meaning, 0);
    lemma_none_holds(predicates, meaning, 0);
    assert(forall|i: int|
        0 <= i < items.len() ==> (reading.holds)(items[i]) == value(
            #[trigger] predicates[i],
            meaning,
        ));
}

proof fn lemma_parts(
    predicates: Seq<PredicateV>,
    state: TranslationStateV,
    later: TranslationStateV,
    reading: Reading,
    meaning: Meaning,
    found: Seq<SExprV>,
    from: int,
)
    requires
        admissible(meaning),
        takes_all(reading),
        interprets_all(reading, meaning, later),
        0 <= from <= predicates.len(),
        all_well_sorted(predicates, from),
        predicates_translated(predicates, state, found, from).0 is Ok,
        keeps_names(predicates_translated(predicates, state, found, from).1, later),
        found.len() == from,
        read_as_meant(predicates, found, reading, meaning),
    ensures
        ({
            let items = predicates_translated(predicates, state, found, from).0->Ok_0;
            items.len() == predicates.len() && read_as_meant(predicates, items, reading, meaning)
        }),
    decreases predicates, 1int, predicates.len() - from,
{
    if from < predicates.len() {
        let (item, between) = predicate_translated(predicates[from], state);
        let more = found.push(item->Ok_0);
        lemma_predicates_keep_names(predicates, between, more, from + 1);
        lemma_keeps_names_transitive(
            between,
            predicates_translated(predicates, between, more, from + 1).1,
            later,
        );
        law_translation_keeps_value(predicates[from], state, later, reading, meaning);
        assert(read_as_meant(predicates, more, reading, meaning)) by {
            assert forall|i: int| 0 <= i < more.len() implies (reading.boolean)(
                #[trigger] more[i],
            ) && (reading.holds)(more[i]) == value(predicates[i], meaning) by {
                if i < from {
                    assert(more[i] == found[i]);
                }
            }
        }
        lemma_parts(predicates, between, later, reading, meaning, more, from + 1);
    }
}

} // verus!
