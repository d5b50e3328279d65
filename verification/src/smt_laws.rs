//! What translations do one after another.

use vstd::prelude::*;
use crate::assoc::{assoc, assoc_bound_from, assoc_from};
use crate::ops::{children, key_precedes, lemma_child_smaller, Keyed};
use crate::predicate::PredicateV;
use crate::sexpr::SExprV;
use crate::smt::{
    children_translated, keeps_names, law_abstraction_is_stable,
    law_predicate_translation_keeps_names, law_translation_keeps_names, lemma_children_keep_names,
    lemma_keeps_names_transitive, lemma_predicates_keep_names, lemma_smt_name_injective,
    predicate_translated, predicates_translated, smt_name, term_translated, with_abstraction,
    TranslationStateV,
};
use crate::term::{Term, TermV};

verus! {

// ---------------------------------------------------------------------------------------------
// Translating again
// ---------------------------------------------------------------------------------------------
pub proof fn lemma_term_again(term: TermV, state: TranslationStateV, later: TranslationStateV)
    requires
        keeps_names(term_translated(term, state).1, later),
    ensures
        term_translated(term, later) == (term_translated(term, state).0, later),
    decreases term, 1int, 0int,
{
    law_abstraction_is_stable(state, term);
    let abstracted = with_abstraction(state, term);
    assert(assoc(abstracted.mappings, term) is Some);
    if keeps_names(abstracted, later) {
        assert(assoc(later.mappings, term) == assoc(abstracted.mappings, term));
    }
    if keeps_names(children_translated(term, state, Seq::empty(), 0).1, later) {
        lemma_children_again(term, state, later, Seq::empty(), 0);
    }
}

proof fn lemma_children_again(
    term: TermV,
    state: TranslationStateV,
    later: TranslationStateV,
    found: Seq<SExprV>,
    from: int,
)
    requires
        keeps_names(children_translated(term, state, found, from).1, later),
    ensures
        children_translated(term, later, found, from) == (
            children_translated(term, state, found, from).0,
            later,
        ),
    decreases term, 0int, children(term).len() - from,
{
    if 0 <= from < children(term).len() {
        lemma_child_smaller(term, from);
        let child = children(term)[from];
        match term_translated(child, state) {
            (Ok(item), next) => {
                let more = found.push(item);
                let last = children_translated(term, next, more, from + 1).1;
                lemma_children_keep_names(term, next, more, from + 1);
                lemma_keeps_names_transitive(next, last, later);
                lemma_term_again(child, state, later);
                lemma_children_again(term, next, later, more, from + 1);
            },
            (Err(_), next) => {
                lemma_term_again(child, state, later);
            },
        }
    }
}

/// A term that is translated again, then or later, gets the same translation, and no name is added.
pub proof fn law_translated_again(term: TermV, state: TranslationStateV, later: TranslationStateV)
    requires
        keeps_names(term_translated(term, state).1, later),
    ensures
        term_translated(term, later) == (term_translated(term, state).0, later),
        term_translated(term, term_translated(term, state).1) == term_translated(term, state),
{
    lemma_term_again(term, state, later);
    lemma_term_again(term, state, term_translated(term, state).1);
}

proof fn lemma_predicate_again(
    predicate: PredicateV,
    state: TranslationStateV,
    later: TranslationStateV,
)
    requires
        keeps_names(predicate_translated(predicate, state).1, later),
    ensures
        predicate_translated(predicate, later) == (predicate_translated(predicate, state).0, later),
    decreases predicate, 0int, 0int,
{
    match predicate {
        PredicateV::Term(term) => {
            lemma_term_again(term, state, later);
        },
        PredicateV::Equals(left, right) => {
            let next = term_translated(left, state).1;
            law_translation_keeps_names(right, next);
            if term_translated(left, state).0 is Ok {
                lemma_keeps_names_transitive(next, term_translated(right, next).1, later);
                lemma_term_again(right, next, later);
            }
            lemma_term_again(left, state, later);
        },
        PredicateV::Not(inner) => {
            lemma_predicate_again(*inner, state, later);
        },
        PredicateV::And(inner) | PredicateV::Or(inner) => {
            lemma_predicates_again(inner, state, later, Seq::empty(), 0);
        },
        PredicateV::Implies(left, right) | PredicateV::Iff(left, right) => {
            let next = predicate_translated(*left, state).1;
            law_predicate_translation_keeps_names(*right, next);
            if predicate_translated(*left, state).0 is Ok {
                lemma_keeps_names_transitive(next, predicate_translated(*right, next).1, later);
                lemma_predicate_again(*right, next, later);
            }
            lemma_predicate_again(*left, state, later);
        },
        _ => {},
    }
}

proof fn lemma_predicates_again(
    predicates: Seq<PredicateV>,
    state: TranslationStateV,
    later: TranslationStateV,
    found: Seq<SExprV>,
    from: int,
)
    requires
        keeps_names(predicates_translated(predicates, state, found, from).1, later),
    ensures
        predicates_translated(predicates, later, found, from) == (
            predicates_translated(predicates, state, found, from).0,
            later,
        ),
    decreases predicates, 1int, predicates.len() - from,
{
    if 0 <= from < predicates.len() {
        match predicate_translated(predicates[from], state) {
            (Ok(item), next) => {
                let more = found.push(item);
                let last = predicates_translated(predicates, next, more, from + 1).1;
                lemma_predicates_keep_names(predicates, next, more, from + 1);
                lemma_keeps_names_transitive(next, last, later);
                lemma_predicate_again(predicates[from], state, later);
                lemma_predicates_again(predicates, next, later, more, from + 1);
            },
            (Err(_), next) => {
                lemma_predicate_again(predicates[from], state, later);
            },
        }
    }
}

/// The same for predicates.
pub proof fn law_predicate_translated_again(
    predicate: PredicateV,
    state: TranslationStateV,
    later: TranslationStateV,
)
    requires
        keeps_names(predicate_translated(predicate, state).1, later),
    ensures
        predicate_translated(predicate, later) == (predicate_translated(predicate, state).0, later),
        predicate_translated(predicate, predicate_translated(predicate, state).1)
            == predicate_translated(predicate, state),
{
    lemma_predicate_again(predicate, state, later);
    lemma_predicate_again(predicate, state, predicate_translated(predicate, state).1);
}

// ---------------------------------------------------------------------------------------------
// The numbers of the names
// ---------------------------------------------------------------------------------------------
/// Whether the name with the number `number` is in use.
pub open spec fn name_in_use(state: TranslationStateV, number: u64) -> bool {
    exists|i: int|
        0 <= i < state.mappings.len() && (#[trigger] state.mappings[i]).1 == smt_name(number)
}

/// Whether a name is numbered from one to `count`.
pub open spec fn is_numbered(name: Seq<char>, count: int) -> bool {
    exists|number: u64| 1 <= number <= count && name == #[trigger] smt_name(number)
}

/// Whether the names in use are those with the numbers from one to the number of the terms, each
/// used once.
pub open spec fn numbered(state: TranslationStateV) -> bool {
    let count = state.mappings.len() as int;
    &&& state.counter == count + 1
    &&& forall|i: int|
        0 <= i < count ==> is_numbered((#[trigger] state.mappings[i]).1, count)
    &&& forall|number: u64| 1 <= number <= count ==> #[trigger] name_in_use(state, number)
    &&& forall|i: int, j: int|
        0 <= i < j < count ==> (#[trigger] state.mappings[i]).1 != (#[trigger] state.mappings[j]).1
}

proof fn lemma_bound_is_insertion(
    items: Seq<(TermV, Seq<char>)>,
    key: TermV,
    value: Seq<char>,
    from: int,
) -> (at: int)
    requires
        0 <= from <= items.len(),
        assoc_from(items, key, from) is None,
    ensures
        0 <= at <= items.len(),
        assoc_bound_from::<Term, Seq<char>>(items, key, value, from) == items.insert(
            at,
            (key, value),
        ),
    decreases items.len() - from,
{
    if from >= items.len() {
        assert(items.push((key, value)) =~= items.insert(items.len() as int, (key, value)));
        items.len() as int
    } else if key_precedes(<Term as Keyed>::key(key), <Term as Keyed>::key(items[from].0)) {
        from
    } else {
        lemma_bound_is_insertion(items, key, value, from + 1)
    }
}

proof fn lemma_abstraction_numbered(state: TranslationStateV, term: TermV)
    requires
        numbered(state),
        with_abstraction(state, term).mappings.len() < u64::MAX,
    ensures
        numbered(with_abstraction(state, term)),
{
    if assoc(state.mappings, term) is None {
        let items = state.mappings;
        let count = items.len() as int;
        let name = smt_name(state.counter);
        let at = lemma_bound_is_insertion(items, term, name, 0);
        let later = with_abstraction(state, term);
        let after = later.mappings;
        assert(after == items.insert(at, (term, name)));
        assert(after[at] == (term, name));
        assert forall|i: int| 0 <= i < count implies (#[trigger] items[i]).1 != name by {
            assert(is_numbered(items[i].1, count));
            let number = choose|number: u64|
                1 <= number <= count && items[i].1 == #[trigger] smt_name(number);
            if smt_name(number) == name {
                lemma_smt_name_injective(number, state.counter);
            }
        }
        assert forall|i: int| 0 <= i < after.len() implies is_numbered(
            (#[trigger] after[i]).1,
            count + 1,
        ) by {
            if i == at {
                assert(name == smt_name(state.counter));
            } else {
                let j = if i < at {
                    i
                } else {
                    i - 1
                };
                assert(after[i] == items[j]);
                assert(is_numbered(items[j].1, count));
                let number = choose|number: u64|
                    1 <= number <= count && items[j].1 == #[trigger] smt_name(number);
                assert(after[i].1 == smt_name(number));
            }
        }
        assert forall|number: u64| 1 <= number <= count + 1 implies #[trigger] name_in_use(
            later,
            number,
        ) by {
            if number == count + 1 {
                assert(after[at].1 == smt_name(number));
            } else {
                assert(name_in_use(state, number));
                let j = choose|j: int| 0 <= j < count && (#[trigger] items[j]).1 == smt_name(number);
                let i = if j < at {
                    j
                } else {
                    j + 1
                };
                assert(after[i] == items[j]);
            }
        }
        assert forall|i: int, j: int| 0 <= i < j < after.len() implies (#[trigger] after[i]).1 != (
        #[trigger] after[j]).1 by {
            let a = if i < at {
                i
            } else {
                i - 1
            };
            let b = if j < at {
                j
            } else {
                j - 1
            };
            if i != at {
                assert(after[i] == items[a]);
            }
            if j != at {
                assert(after[j] == items[b]);
            }
        }
    }
}

proof fn lemma_grows(state: TranslationStateV, term: TermV)
    ensures
        with_abstraction(state, term).mappings.len() >= state.mappings.len(),
{
    if assoc(state.mappings, term) is None {
        let at = lemma_bound_is_insertion(state.mappings, term, smt_name(state.counter), 0);
    }
}

proof fn lemma_term_grows(term: TermV, state: TranslationStateV)
    ensures
        term_translated(term, state).1.mappings.len() >= state.mappings.len(),
    decreases term, 1int, 0int,
{
    lemma_grows(state, term);
    lemma_children_grow(term, state, Seq::empty(), 0);
}

proof fn lemma_children_grow(
    term: TermV,
    state: TranslationStateV,
    found: Seq<SExprV>,
    from: int,
)
    ensures
        children_translated(term, state, found, from).1.mappings.len() >= state.mappings.len(),
    decreases term, 0int, children(term).len() - from,
{
    if 0 <= from < children(term).len() {
        lemma_child_smaller(term, from);
        lemma_term_grows(children(term)[from], state);
        if let (Ok(item), next) = term_translated(children(term)[from], state) {
            lemma_children_grow(term, next, found.push(item), from + 1);
        }
    }
}

/// The names after a translation are SMT-1 to SMT-n for n terms, each used once, and so they were
/// before; whatever the translation gives. (There are no more terms than numbers.)
pub proof fn law_translation_numbers_names(term: TermV, state: TranslationStateV)
    requires
        numbered(state),
        term_translated(term, state).1.mappings.len() < u64::MAX,
    ensures
        numbered(term_translated(term, state).1),
        keeps_names(state, term_translated(term, state).1),
    decreases term, 1int, 0int,
{
    law_translation_keeps_names(term, state);
    if term_translated(term, state).1 == with_abstraction(state, term) {
        lemma_abstraction_numbered(state, term);
    } else if term_translated(term, state).1 == children_translated(
        term,
        state,
        Seq::empty(),
        0,
    ).1 {
        lemma_children_numbered(term, state, Seq::empty(), 0);
    }
}

proof fn lemma_children_numbered(
    term: TermV,
    state: TranslationStateV,
    found: Seq<SExprV>,
    from: int,
)
    requires
        numbered(state),
        children_translated(term, state, found, from).1.mappings.len() < u64::MAX,
    ensures
        numbered(children_translated(term, state, found, from).1),
    decreases term, 0int, children(term).len() - from,
{
    if 0 <= from < children(term).len() {
        lemma_child_smaller(term, from);
        let child = children(term)[from];
        match term_translated(child, state) {
            (Ok(item), next) => {
                lemma_children_grow(term, next, found.push(item), from + 1);
                law_translation_numbers_names(child, state);
                lemma_children_numbered(term, next, found.push(item), from + 1);
            },
            _ => {
                law_translation_numbers_names(child, state);
            },
        }
    }
}

proof fn lemma_predicate_grows(predicate: PredicateV, state: TranslationStateV)
    ensures
        predicate_translated(predicate, state).1.mappings.len() >= state.mappings.len(),
    decreases predicate, 0int, 0int,
{
    match predicate {
        PredicateV::Term(term) => {
            lemma_term_grows(term, state);
        },
        PredicateV::Equals(left, right) => {
            lemma_term_grows(left, state);
            lemma_term_grows(right, term_translated(left, state).1);
        },
        PredicateV::Not(inner) => {
            lemma_predicate_grows(*inner, state);
        },
        PredicateV::And(inner) | PredicateV::Or(inner) => {
            lemma_predicates_grow(inner, state, Seq::empty(), 0);
        },
        PredicateV::Implies(left, right) | PredicateV::Iff(left, right) => {
            lemma_predicate_grows(*left, state);
            lemma_predicate_grows(*right, predicate_translated(*left, state).1);
        },
        _ => {},
    }
}

proof fn lemma_predicates_grow(
    predicates: Seq<PredicateV>,
    state: TranslationStateV,
    found: Seq<SExprV>,
    from: int,
)
    ensures
        predicates_translated(predicates, state, found, from).1.mappings.len()
            >= state.mappings.len(),
    decreases predicates, 1int, predicates.len() - from,
{
    if 0 <= from < predicates.len() {
        lemma_predicate_grows(predicates[from], state);
        if let (Ok(item), next) = predicate_translated(predicates[from], state) {
            lemma_predicates_grow(predicates, next, found.push(item), from + 1);
        }
    }
}

/// The same for predicates.
pub proof fn law_predicate_translation_numbers_names(
    predicate: PredicateV,
    state: TranslationStateV,
)
    requires
        numbered(state),
        predicate_translated(predicate, state).1.mappings.len() < u64::MAX,
    ensures
        numbered(predicate_translated(predicate, state).1),
        keeps_names(state, predicate_translated(predicate, state).1),
    decreases predicate, 0int, 0int,
{
    law_predicate_translation_keeps_names(predicate, state);
    match predicate {
        PredicateV::Term(term) => {
            law_translation_numbers_names(term, state);
        },
        PredicateV::Equals(left, right) => {
            let next = term_translated(left, state).1;
            lemma_term_grows(right, next);
            if term_translated(left, state).0 is Ok {
                law_translation_numbers_names(left, state);
                law_translation_numbers_names(right, next);
            } else {
                law_translation_numbers_names(left, state);
            }
        },
        PredicateV::Not(inner) => {
            law_predicate_translation_numbers_names(*inner, state);
        },
        PredicateV::And(inner) | PredicateV::Or(inner) => {
            lemma_predicates_numbered(inner, state, Seq::empty(), 0);
        },
        PredicateV::Implies(left, right) | PredicateV::Iff(left, right) => {
            let next = predicate_translated(*left, state).1;
            lemma_predicate_grows(*right, next);
            if predicate_translated(*left, state).0 is Ok {
                law_predicate_translation_numbers_names(*left, state);
                law_predicate_translation_numbers_names(*right, next);
            } else {
                law_predicate_translation_numbers_names(*left, state);
            }
        },
        _ => {},
    }
}

proof fn lemma_predicates_numbered(
    predicates: Seq<PredicateV>,
    state: TranslationStateV,
    found: Seq<SExprV>,
    from: int,
)
    requires
        numbered(state),
        predicates_translated(predicates, state, found, from).1.mappings.len() < u64::MAX,
    ensures
        numbered(predicates_translated(predicates, state, found, from).1),
    decreases predicates, 1int, predicates.len() - from,
{
    if 0 <= from < predicates.len() {
        match predicate_translated(predicates[from], state) {
            (Ok(item), next) => {
                lemma_predicates_grow(predicates, next, found.push(item), from + 1);
                law_predicate_translation_numbers_names(predicates[from], state);
                lemma_predicates_numbered(predicates, next, found.push(item), from + 1);
            },
            _ => {
                law_predicate_translation_numbers_names(predicates[from], state);
            },
        }
    }
}

/// Before the first translation no name is in use.
pub proof fn law_start_is_numbered()
    ensures
        numbered(TranslationStateV { mappings: Seq::empty(), counter: 1 }),
{
}

} // verus!
