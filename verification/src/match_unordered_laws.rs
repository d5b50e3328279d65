//! What the steps that match sets and maps say of the terms.

use vstd::prelude::*;
use crate::alike::{
    all_alike, alike, entries_alike, lemma_alike_equal, lemma_alike_map, lemma_alike_set,
    rests_alike,
};
use crate::assoc::{assoc, assoc_bound_from, assoc_from, collected, collected_upto};
use crate::collection_laws::{
    all_replaced, does_both, entries_replaced, law_substituted_is_normal, lemma_list_children,
    lemma_list_replaced, lemma_joined_contains, lemma_joined_items, lemma_map_children,
    lemma_map_merged, lemma_map_normal, lemma_map_replaced, lemma_map_rest, lemma_map_same,
    lemma_set_children, lemma_set_merged, lemma_set_normal, lemma_set_replaced, lemma_set_rest,
    lemma_set_same, lemma_sorted_empty, lemma_substituted_twice, rest_replaced, values_normal,
};
use crate::construct::{map_term, occurs, set_term};
use crate::match_collection_laws::{
    all_fit, all_parts, lemma_among_children, lemma_among_joined, lemma_occurs_list,
    lemma_some_child, occurs_among, occurs_in_rest,
};
use crate::match_collections::{
    all_substituted, boxed_rest, common_values, keys_of, keys_substituted, map_remainder, maps_step,
    opaque_rest, remainder_map, remainders_step, repeated, repeated_from, repeated_key, sets_step,
    unmatched, with_keys,
};
use crate::match_laws::{
    barred, extends, fits, kept_step, lemma_assoc_entry, lemma_fits_child, lemma_occurs_child,
    lemma_part_child, lemma_untouched, ordered, pairs_fit, pairs_hold, part, sound_step, steady,
    Whole,
};
use crate::matcher::opened;
use crate::matching::{enqueued_all, MatchMode, ProgressV};
use crate::model::{difference, intersection, law_difference, law_intersection};
use crate::ops::{
    children, flat_entries, key_precedes, lemma_child_smaller, rest_seq, sorted, Keyed,
};
use crate::order::{law_sorted, lemma_push_contains, same_items};
use crate::rebuild::with_children;
use crate::substitution::{substituted, substituted_child, substituted_children, SubstitutionV};
use crate::term::{CollectionDefinitionV, Term, TermV, VariableV};

verus! {

// ---------------------------------------------------------------------------------------------
// Two substitutions
// ---------------------------------------------------------------------------------------------
/// What was bound before changes nothing for what is bound in the end.
pub proof fn lemma_bound_before(
    term: TermV,
    before: SubstitutionV,
    last: SubstitutionV,
    whole: Whole,
)
    requires
        steady(before, whole),
        steady(last, whole),
        extends(last, before),
    ensures
        substituted(substituted(term, before), last) == substituted(term, last),
{
    assert(values_normal(before));
    assert(values_normal(last));
    assert forall|variable: VariableV| #[trigger] does_both(last, last, before, variable) by {
        if let Some(value) = assoc(before, variable) {
            lemma_value_fits(before, variable, whole);
            lemma_untouched(value, last, whole);
        }
    }
    lemma_substituted_twice(term, last, last, before);
}

proof fn lemma_value_fits(substitution: SubstitutionV, variable: VariableV, whole: Whole)
    requires
        steady(substitution, whole),
        assoc(substitution, variable) is Some,
    ensures
        fits(assoc(substitution, variable)->0, whole),
{
    lemma_assoc_entry(substitution, variable, 0);
    let i: int = choose|i: int|
        0 <= i < substitution.len() && #[trigger] substitution[i] == (
            variable,
            assoc(substitution, variable)->0,
        );
    assert(fits(substitution[i].1, whole));
}

/// A term that became one of the subject stays it.
proof fn lemma_settled(
    term: TermV,
    before: SubstitutionV,
    last: SubstitutionV,
    whole: Whole,
)
    requires
        steady(before, whole),
        steady(last, whole),
        extends(last, before),
        fits(substituted(term, before), whole),
    ensures
        substituted(term, last) == substituted(term, before),
{
    lemma_bound_before(term, before, last, whole);
    lemma_untouched(substituted(term, before), last, whole);
}

// ---------------------------------------------------------------------------------------------
// Sets
// ---------------------------------------------------------------------------------------------
/// A variable in a set is one in its parts.
proof fn lemma_occurs_set(
    variable: VariableV,
    definition: CollectionDefinitionV,
    elements: Seq<TermV>,
    rest: Option<Box<TermV>>,
)
    requires
        occurs(variable, set_term(definition, elements, rest)),
    ensures
        occurs_among(variable, elements) || occurs_in_rest(variable, rest),
{
    let term = set_term(definition, elements, rest);
    reveal(set_term);
    let same = rest is Some && *rest->0 is KSet && (*rest->0)->KSet_definition == definition;
    if same && (*rest->0)->KSet_rest is Some && term == *(*rest->0)->KSet_rest->0 {
        let inner = *rest->0;
        lemma_set_children(inner);
        assert(occurs(variable, rest_seq(inner->KSet_rest)[0]));
        lemma_among_children(
            variable,
            inner,
            rest_seq(inner->KSet_rest),
            inner->KSet_elements.len() as int,
        );
    } else if !occurs_in_rest(variable, rest) {
        assert(term is KSet);
        lemma_set_children(term);
        lemma_some_child(variable, term, 0);
        let own = term->KSet_elements;
        lemma_among_joined(variable, own, rest_seq(term->KSet_rest));
        if same {
            let inner = *rest->0;
            lemma_set_children(inner);
            let more = inner->KSet_elements;
            lemma_sorted_empty::<Term>(elements + more);
            lemma_among_sorted(variable, elements + more);
            lemma_among_joined(variable, elements, more);
            if occurs_among(variable, more) {
                lemma_among_children(variable, inner, more, 0);
            }
            if occurs_among(variable, rest_seq(inner->KSet_rest)) {
                lemma_among_children(
                    variable,
                    inner,
                    rest_seq(inner->KSet_rest),
                    more.len() as int,
                );
            }
        } else {
            lemma_among_sorted(variable, elements);
            if occurs_among(variable, rest_seq(rest)) {
                let i: int = choose|i: int|
                    0 <= i < rest_seq(rest).len() && occurs(variable, #[trigger] rest_seq(rest)[i]);
                assert(occurs(variable, *rest->0));
            }
        }
    }
}

proof fn lemma_among_sorted(variable: VariableV, terms: Seq<TermV>)
    ensures
        occurs_among(variable, sorted::<Term>(terms)) ==> occurs_among(variable, terms),
{
    let all = sorted::<Term>(terms);
    lemma_sorted_empty::<Term>(terms);
    if occurs_among(variable, all) {
        let i: int = choose|i: int| 0 <= i < all.len() && occurs(variable, #[trigger] all[i]);
        assert(terms.contains(all[i]));
        let j: int = choose|j: int| 0 <= j < terms.len() && terms[j] == all[i];
        assert(occurs(variable, terms[j]));
    }
}

proof fn lemma_set_fits(
    definition: CollectionDefinitionV,
    elements: Seq<TermV>,
    rest: Option<Box<TermV>>,
    whole: Whole,
)
    requires
        all_fit(elements, whole),
        rest is Some ==> fits(*rest->0, whole),
    ensures
        fits(set_term(definition, elements, rest), whole),
{
    lemma_set_normal(definition, elements, rest);
    let term = set_term(definition, elements, rest);
    assert forall|v: VariableV| #[trigger] barred(v, whole) implies !occurs(v, term) by {
        if occurs(v, term) {
            lemma_occurs_set(v, definition, elements, rest);
        }
    }
}

/// What the elements of a set pattern become: those that are in the subject, and the others.
proof fn lemma_elements_replaced(
    elements: Seq<TermV>,
    others: Seq<TermV>,
    before: SubstitutionV,
    last: SubstitutionV,
    whole: Whole,
)
    requires
        steady(before, whole),
        steady(last, whole),
        extends(last, before),
        all_fit(others, whole),
    ensures
        ({
            let left = sorted::<Term>(all_substituted(elements, before));
            let right = sorted::<Term>(others);
            let common = intersection(left, right);
            same_items(
                all_replaced(elements, last),
                common + all_replaced(difference(left, common), last),
            )
        }),
{
    let now = all_substituted(elements, before);
    let left = sorted::<Term>(now);
    let right = sorted::<Term>(others);
    let common = intersection(left, right);
    let open = difference(left, common);
    let done = all_replaced(elements, last);
    let opened = all_replaced(open, last);
    law_sorted::<Term>(now);
    law_sorted::<Term>(others);
    assert forall|item: TermV| #[trigger] done.contains(item) <==> (common + opened).contains(
        item,
    ) by {
        lemma_joined_contains(common, opened, item);
        if done.contains(item) {
            let i: int = choose|i: int| 0 <= i < done.len() && done[i] == item;
            let value = now[i];
            assert(now.contains(value));
            assert(left.contains(value));
            law_intersection(left, right, value);
            law_difference(left, common, value);
            if right.contains(value) {
                assert(others.contains(value));
                let j: int = choose|j: int| 0 <= j < others.len() && others[j] == value;
                assert(fits(others[j], whole));
                lemma_settled(elements[i], before, last, whole);
            } else {
                let j: int = choose|j: int| 0 <= j < open.len() && open[j] == value;
                lemma_bound_before(elements[i], before, last, whole);
                assert(opened[j] == item);
            }
        }
        if common.contains(item) {
            law_intersection(left, right, item);
            assert(now.contains(item));
            let i: int = choose|i: int| 0 <= i < now.len() && now[i] == item;
            assert(others.contains(item));
            let j: int = choose|j: int| 0 <= j < others.len() && others[j] == item;
            assert(fits(others[j], whole));
            lemma_settled(elements[i], before, last, whole);
            assert(done[i] == item);
        }
        if opened.contains(item) {
            let j: int = choose|j: int| 0 <= j < opened.len() && opened[j] == item;
            assert(open.contains(open[j]));
            law_difference(left, common, open[j]);
            assert(now.contains(open[j]));
            let i: int = choose|i: int| 0 <= i < now.len() && now[i] == open[j];
            lemma_bound_before(elements[i], before, last, whole);
            assert(done[i] == item);
        }
    }
}

/// The elements of the subject: those that are in the pattern, and the others.
proof fn lemma_elements_split(left: Seq<TermV>, others: Seq<TermV>)
    ensures
        ({
            let right = sorted::<Term>(others);
            let common = intersection(left, right);
            same_items(common + difference(right, common), others)
        }),
{
    let right = sorted::<Term>(others);
    let common = intersection(left, right);
    let open = difference(right, common);
    law_sorted::<Term>(others);
    assert forall|item: TermV| #[trigger] (common + open).contains(item) <==> others.contains(
        item,
    ) by {
        lemma_joined_contains(common, open, item);
        law_intersection(left, right, item);
        law_difference(right, common, item);
        assert(right.contains(item) <==> others.contains(item));
    }
}

proof fn lemma_equal_elements(terms: Seq<TermV>, whole: Whole)
    ensures
        all_alike(whole.overloads, terms, terms),
{
    assert forall|i: int| 0 <= i < terms.len() implies alike(whole.overloads, #[trigger] terms[i], terms[i]) by {
        lemma_alike_equal(whole.overloads, terms[i]);
    }
}

/// The step that matches two sets keeps what was matched, and is sound.
#[verifier::spinoff_prover]
pub proof fn lemma_sets_step(
    mode: MatchMode,
    rest: ProgressV,
    pattern: TermV,
    subject: TermV,
    whole: Whole,
    last: SubstitutionV,
)
    requires
        pattern is KSet,
        subject is KSet,
        pattern->KSet_definition == subject->KSet_definition,
        steady(rest.substitution, whole),
        steady(last, whole),
        part(pattern, whole),
        fits(subject, whole),
        sets_step(
            mode,
            rest,
            pattern->KSet_definition,
            pattern->KSet_elements,
            opened(pattern->KSet_rest),
            subject->KSet_elements,
            opened(subject->KSet_rest),
        ) is Ok,
    ensures
        ({
            let next = sets_step(
                mode,
                rest,
                pattern->KSet_definition,
                pattern->KSet_elements,
                opened(pattern->KSet_rest),
                subject->KSet_elements,
                opened(subject->KSet_rest),
            )->Ok_0;
            kept_step(rest, next, whole) && sound_step(rest, next, pattern, subject, whole, last)
        }),
{
    let definition = pattern->KSet_definition;
    let elements = pattern->KSet_elements;
    let others = subject->KSet_elements;
    let before = rest.substitution;
    let next = sets_step(
        mode,
        rest,
        definition,
        elements,
        opened(pattern->KSet_rest),
        others,
        opened(subject->KSet_rest),
    )->Ok_0;
    lemma_set_rest(subject);
    lemma_set_parts(pattern, subject, whole);
    let all_left = sorted::<Term>(all_substituted(elements, before));
    let all_right = sorted::<Term>(others);
    let common = intersection(all_left, all_right);
    let left = difference(all_left, common);
    let right = difference(all_right, common);
    let start = rest.queue.len() as int;
    let none = Seq::<TermV>::empty();
    lemma_open_elements(elements, others, before, whole);
    lemma_set_fits(definition, right, subject->KSet_rest, whole);
    lemma_set_fits(definition, none, None, whole);
    if next.indeterminate.len() == rest.indeterminate.len() {
        let right_set = set_term(definition, right, subject->KSet_rest);
        let empty = set_term(definition, none, None);
        assert(next.substitution == before);
        lemma_set_replaced(pattern, last);
        lemma_elements_split(all_left, others);
        lemma_equal_elements(common, whole);
        lemma_set_same(definition, common + right, others, subject->KSet_rest);
        if extends(last, before) {
            lemma_elements_replaced(elements, others, before, last, whole);
            lemma_set_same(
                definition,
                all_replaced(elements, last),
                common + all_replaced(left, last),
                rest_replaced(pattern->KSet_rest, last),
            );
        }
        if left.len() == 0 {
            assert(common + all_replaced(left, last) =~= common);
            if let Some(inner) = pattern->KSet_rest {
                assert(next.queue[start] == (*inner, right_set));
                if extends(last, before) && pairs_hold(whole.overloads, next.queue, start, last) {
                    lemma_set_merged(definition, common, right, subject->KSet_rest);
                    lemma_alike_set(
                        whole.overloads,
                        definition,
                        common,
                        rest_replaced(pattern->KSet_rest, last),
                        common,
                        Some(Box::new(right_set)),
                    );
                }
            } else {
                assert(common + right =~= common);
                lemma_alike_equal(whole.overloads, subject);
            }
        } else {
            assert(left.len() == 1 && right.len() == 1 && subject->KSet_rest is None);
            assert(next.queue[start] == (left[0], right[0]));
            let ours = common + all_replaced(left, last);
            let theirs = common + right;
            if extends(last, before) && pairs_hold(whole.overloads, next.queue, start, last) {
                assert forall|i: int| 0 <= i < ours.len() implies alike(
                    whole.overloads,
                    #[trigger] ours[i],
                    theirs[i],
                ) by {
                    if i < common.len() {
                        assert(ours[i] == common[i]);
                        assert(alike(whole.overloads, common[i], common[i]));
                    } else {
                        assert(ours[i] == substituted(left[0], last));
                        assert(theirs[i] == right[0]);
                    }
                }
                if let Some(inner) = pattern->KSet_rest {
                    assert(next.queue[start + 1] == (*inner, empty));
                    lemma_set_merged(definition, theirs, none, None);
                    assert(theirs + none =~= theirs);
                    lemma_alike_set(
                        whole.overloads,
                        definition,
                        ours,
                        rest_replaced(pattern->KSet_rest, last),
                        theirs,
                        Some(Box::new(empty)),
                    );
                } else {
                    lemma_alike_set(whole.overloads, definition, ours, None, theirs, None);
                }
            }
        }
    }
}

/// The parts of two sets stand where the sets stand.
proof fn lemma_set_parts(pattern: TermV, subject: TermV, whole: Whole)
    requires
        pattern is KSet,
        subject is KSet,
        part(pattern, whole),
        fits(subject, whole),
    ensures
        !ordered(whole.pattern),
        all_parts(pattern->KSet_elements, whole),
        pattern->KSet_rest is Some ==> part(*pattern->KSet_rest->0, whole),
        all_fit(subject->KSet_elements, whole),
        subject->KSet_rest is Some ==> fits(*subject->KSet_rest->0, whole),
{
    lemma_set_children(pattern);
    lemma_set_children(subject);
    let others = subject->KSet_elements;
    if pattern->KSet_rest is Some {
        let i = pattern->KSet_elements.len() as int;
        assert(children(pattern)[i] == *pattern->KSet_rest->0);
        lemma_part_child(pattern, whole, i);
    }
    if subject->KSet_rest is Some {
        let i = others.len() as int;
        assert(children(subject)[i] == *subject->KSet_rest->0);
        lemma_fits_child(subject, whole, i);
    }
    assert forall|i: int| 0 <= i < others.len() implies fits(#[trigger] others[i], whole) by {
        assert(children(subject)[i] == others[i]);
        lemma_fits_child(subject, whole, i);
    }
    let elements = pattern->KSet_elements;
    assert forall|i: int| 0 <= i < elements.len() implies part(#[trigger] elements[i], whole) by {
        assert(children(pattern)[i] == elements[i]);
        lemma_part_child(pattern, whole, i);
    }
}

/// The elements that are left on either side.
proof fn lemma_open_elements(
    elements: Seq<TermV>,
    others: Seq<TermV>,
    before: SubstitutionV,
    whole: Whole,
)
    requires
        steady(before, whole),
        all_parts(elements, whole),
        all_fit(others, whole),
        !ordered(whole.pattern),
    ensures
        ({
            let left = sorted::<Term>(all_substituted(elements, before));
            let right = sorted::<Term>(others);
            let common = intersection(left, right);
            &&& all_fit(difference(right, common), whole)
            &&& all_parts(difference(left, common), whole)
        }),
{
    let now = all_substituted(elements, before);
    let left = sorted::<Term>(now);
    let right = sorted::<Term>(others);
    let common = intersection(left, right);
    law_sorted::<Term>(now);
    law_sorted::<Term>(others);
    assert forall|i: int| 0 <= i < difference(right, common).len() implies fits(
        #[trigger] difference(right, common)[i],
        whole,
    ) by {
        let item = difference(right, common)[i];
        assert(difference(right, common).contains(item));
        law_difference(right, common, item);
        assert(others.contains(item));
        let j: int = choose|j: int| 0 <= j < others.len() && others[j] == item;
        assert(fits(others[j], whole));
    }
    assert forall|i: int| 0 <= i < difference(left, common).len() implies part(
        #[trigger] difference(left, common)[i],
        whole,
    ) by {
        let item = difference(left, common)[i];
        assert(difference(left, common).contains(item));
        law_difference(left, common, item);
        assert(now.contains(item));
        let j: int = choose|j: int| 0 <= j < now.len() && now[j] == item;
        assert(part(elements[j], whole));
        lemma_part_substituted(elements[j], before, whole);
    }
}

// ---------------------------------------------------------------------------------------------
// Variables
// ---------------------------------------------------------------------------------------------
/// Whether a variable occurs in what a substitution gives.
pub open spec fn occurs_in_values(variable: VariableV, substitution: SubstitutionV) -> bool {
    exists|i: int| 0 <= i < substitution.len() && occurs(variable, (#[trigger] substitution[i]).1)
}

/// A variable in a term under a substitution is one of the term, or of what is substituted.
proof fn lemma_occurs_substituted(variable: VariableV, term: TermV, substitution: SubstitutionV)
    requires
        occurs(variable, substituted(term, substitution)),
    ensures
        occurs(variable, term) || occurs_in_values(variable, substitution),
    decreases term,
{
    let all = children(term);
    assert forall|i: int|
        0 <= i < all.len() && occurs(
            variable,
            substituted(#[trigger] all[i], substitution),
        ) implies occurs(variable, term) || occurs_in_values(variable, substitution) by {
        lemma_child_smaller(term, i);
        lemma_occurs_substituted(variable, all[i], substitution);
        if occurs(variable, all[i]) {
            reveal(children);
            lemma_occurs_child(variable, term, 0, i);
        }
    }
    match term {
        TermV::Variable(own) => {
            if assoc(substitution, own) is Some {
                lemma_assoc_entry(substitution, own, 0);
            }
        },
        TermV::KList { definition, heads, rest, tails } => {
            lemma_list_children(term);
            lemma_list_replaced(term, substitution);
            let first = all_replaced(heads, substitution);
            let last = all_replaced(tails, substitution);
            lemma_occurs_list(
                variable,
                definition,
                first,
                rest_replaced(rest, substitution),
                last,
            );
            if occurs_among(variable, first) {
                let i: int = choose|i: int|
                    0 <= i < first.len() && occurs(variable, #[trigger] first[i]);
                assert(all[i] == heads[i]);
            } else if occurs_in_rest(variable, rest_replaced(rest, substitution)) {
                assert(all[heads.len() as int] == *rest->0);
            } else {
                let i: int = choose|i: int|
                    0 <= i < last.len() && occurs(variable, #[trigger] last[i]);
                assert(all[heads.len() + rest_seq(rest).len() + i] == tails[i]);
            }
        },
        TermV::KSet { definition, elements, rest } => {
            lemma_set_children(term);
            lemma_set_replaced(term, substitution);
            let first = all_replaced(elements, substitution);
            lemma_occurs_set(variable, definition, first, rest_replaced(rest, substitution));
            if occurs_among(variable, first) {
                let i: int = choose|i: int|
                    0 <= i < first.len() && occurs(variable, #[trigger] first[i]);
                assert(all[i] == elements[i]);
            } else {
                assert(all[elements.len() as int] == *rest->0);
            }
        },
        TermV::KMap { definition, entries, rest } => {
            lemma_map_children(term);
            lemma_map_replaced(term, substitution);
            let first = entries_replaced(entries, substitution);
            lemma_occurs_map(variable, definition, first, rest_replaced(rest, substitution));
            if occurs_in_entries(variable, first) {
                let i: int = choose|i: int|
                    0 <= i < first.len() && (occurs(variable, (#[trigger] first[i]).0) || occurs(
                        variable,
                        first[i].1,
                    ));
                assert(all[2 * i] == entries[i].0);
                assert(all[2 * i + 1] == entries[i].1);
            } else {
                assert(all[2 * entries.len() as int] == *rest->0);
            }
        },
        _ => {
            let done = substituted(term, substitution);
            let kids = substituted_children(term, substitution);
            assert(children(done) =~= kids) by {
                reveal(children);
                reveal(with_children);
            }
            assert(!(done is Variable)) by {
                reveal(with_children);
            }
            lemma_some_child(variable, done, 0);
            let i: int = choose|i: int| 0 <= i < kids.len() && occurs(variable, #[trigger] kids[i]);
            assert(kids[i] == substituted_child(term, i, substitution));
            assert(occurs(variable, substituted(all[i], substitution)));
        },
    }
}

/// A part of the pattern stays one when variables are replaced by what they were bound to.
proof fn lemma_part_substituted(term: TermV, before: SubstitutionV, whole: Whole)
    requires
        part(term, whole),
        steady(before, whole),
        !ordered(whole.pattern),
    ensures
        part(substituted(term, before), whole),
{
    assert(values_normal(before));
    law_substituted_is_normal(term, before);
    let done = substituted(term, before);
    if whole.closed {
        assert forall|v: VariableV| occurs(v, done) implies #[trigger] occurs(v, whole.pattern) by {
            lemma_occurs_substituted(v, term, before);
            if occurs_in_values(v, before) {
                let i: int = choose|i: int|
                    0 <= i < before.len() && occurs(v, (#[trigger] before[i]).1);
                assert(fits(before[i].1, whole));
                assert(barred(v, whole));
            }
        }
    }
}

// ---------------------------------------------------------------------------------------------
// Entries
// ---------------------------------------------------------------------------------------------
/// Whether no key has two entries.
pub open spec fn keys_differ(entries: Seq<(TermV, TermV)>) -> bool {
    forall|i: int, j: int|
        0 <= i < j < entries.len() ==> (#[trigger] entries[i]).0 != (#[trigger] entries[j]).0
}

proof fn lemma_not_repeated(entries: Seq<(TermV, TermV)>, keys: Seq<TermV>, from: int, at: int)
    requires
        0 <= from <= at < keys.len(),
        repeated_from(entries, keys, from) is None,
    ensures
        !repeated(entries, keys[at]),
    decreases at - from,
{
    if from < at {
        lemma_not_repeated(entries, keys, from + 1, at);
    }
}

proof fn lemma_keys_differ(entries: Seq<(TermV, TermV)>)
    requires
        repeated_key(entries) is None,
    ensures
        keys_differ(entries),
{
    let keys = sorted::<Term>(keys_of(entries));
    law_sorted::<Term>(keys_of(entries));
    assert forall|i: int, j: int| 0 <= i < j < entries.len() implies (#[trigger] entries[i]).0 != (
    #[trigger] entries[j]).0 by {
        let key = entries[i].0;
        if key == entries[j].0 {
            assert(keys_of(entries)[i] == key);
            assert(keys_of(entries).contains(key));
            assert(keys.contains(key));
            let at: int = choose|at: int| 0 <= at < keys.len() && keys[at] == key;
            lemma_not_repeated(entries, keys, 0, at);
            assert(repeated(entries, key));
        }
    }
}

/// A key that is new is inserted.
proof fn lemma_bound_inserts(
    entries: Seq<(TermV, TermV)>,
    key: TermV,
    value: TermV,
    from: int,
) -> (at: int)
    requires
        0 <= from <= entries.len(),
        forall|i: int| from <= i < entries.len() ==> (#[trigger] entries[i]).0 != key,
    ensures
        0 <= at <= entries.len(),
        assoc_bound_from::<Term, TermV>(entries, key, value, from) == entries.insert(
            at,
            (key, value),
        ),
    decreases entries.len() - from,
{
    if from >= entries.len() {
        assert(entries.push((key, value)) =~= entries.insert(entries.len() as int, (key, value)));
        entries.len() as int
    } else if key_precedes(<Term as Keyed>::key(key), <Term as Keyed>::key(entries[from].0)) {
        from
    } else {
        lemma_bound_inserts(entries, key, value, from + 1)
    }
}

proof fn lemma_inserted_contains(
    entries: Seq<(TermV, TermV)>,
    at: int,
    entry: (TermV, TermV),
    item: (TermV, TermV),
)
    requires
        0 <= at <= entries.len(),
    ensures
        entries.insert(at, entry).contains(item) <==> item == entry || entries.contains(item),
{
    let more = entries.insert(at, entry);
    if entries.contains(item) {
        let i: int = choose|i: int| 0 <= i < entries.len() && entries[i] == item;
        assert(more[if i < at {
            i
        } else {
            i + 1
        }] == item);
    }
    assert(more[at] == entry);
    if more.contains(item) {
        let i: int = choose|i: int| 0 <= i < more.len() && more[i] == item;
        if i < at {
            assert(entries[i] == item);
        } else if i > at {
            assert(entries[i - 1] == item);
        }
    }
}

/// Entries without repeated keys are collected as they are.
proof fn lemma_collected(entries: Seq<(TermV, TermV)>, count: int)
    requires
        keys_differ(entries),
        0 <= count <= entries.len(),
    ensures
        same_items(collected_upto::<Term, TermV>(entries, count), entries.take(count)),
        keys_differ(collected_upto::<Term, TermV>(entries, count)),
    decreases count,
{
    let found = collected_upto::<Term, TermV>(entries, count);
    if count > 0 {
        lemma_collected(entries, count - 1);
        let before = collected_upto::<Term, TermV>(entries, count - 1);
        let fewer = entries.take(count - 1);
        let (key, value) = entries[count - 1];
        assert forall|i: int| 0 <= i < before.len() implies (#[trigger] before[i]).0 != key by {
            assert(before.contains(before[i]));
            assert(fewer.contains(before[i]));
            let j: int = choose|j: int| 0 <= j < fewer.len() && fewer[j] == before[i];
            assert(entries[j] == before[i]);
            assert(entries[j].0 != entries[count - 1].0);
        }
        let at = lemma_bound_inserts(before, key, value, 0);
        assert(found == before.insert(at, (key, value)));
        assert(entries.take(count) =~= fewer.push((key, value)));
        assert forall|item: (TermV, TermV)| #[trigger] found.contains(item) <==> entries.take(
            count,
        ).contains(item) by {
            lemma_inserted_contains(before, at, (key, value), item);
            lemma_push_contains(fewer, (key, value), item);
            assert(before.contains(item) <==> fewer.contains(item));
        }
        assert forall|i: int, j: int| 0 <= i < j < found.len() implies (#[trigger] found[i]).0 != (
        #[trigger] found[j]).0 by {
            if i != at {
                assert(found[i] == before[if i < at {
                    i
                } else {
                    i - 1
                }]);
            }
            if j != at {
                assert(found[j] == before[if j < at {
                    j
                } else {
                    j - 1
                }]);
            }
        }
    }
}

/// What a key stands for is what its entry says.
proof fn lemma_entry_of(entries: Seq<(TermV, TermV)>, key: TermV, value: TermV, from: int)
    requires
        0 <= from,
    ensures
        assoc_from(entries, key, from) == Some(value) ==> entries.contains((key, value)),
        assoc_from(entries, key, from) is None ==> forall|i: int|
            from <= i < entries.len() ==> (#[trigger] entries[i]).0 != key,
    decreases entries.len() - from,
{
    if from < entries.len() {
        if entries[from].0 == key {
            assert(entries[from] == (key, entries[from].1));
        } else {
            lemma_entry_of(entries, key, value, from + 1);
        }
    }
}

proof fn lemma_entry_stands(entries: Seq<(TermV, TermV)>, at: int, from: int)
    requires
        keys_differ(entries),
        0 <= from <= at < entries.len(),
    ensures
        assoc_from(entries, entries[at].0, from) == Some(entries[at].1),
    decreases at - from,
{
    if from < at {
        assert(entries[from].0 != entries[at].0);
        lemma_entry_stands(entries, at, from + 1);
    }
}

/// The first `count` entries of `left` whose key `right` has.
pub open spec fn shared_left(
    left: Seq<(TermV, TermV)>,
    right: Seq<(TermV, TermV)>,
    count: int,
) -> Seq<(TermV, TermV)>
    decreases count,
{
    if count <= 0 {
        Seq::empty()
    } else {
        let before = shared_left(left, right, count - 1);
        if assoc(right, left[count - 1].0) is Some {
            before.push(left[count - 1])
        } else {
            before
        }
    }
}

/// The entries that `right` has for them.
pub open spec fn shared_right(
    left: Seq<(TermV, TermV)>,
    right: Seq<(TermV, TermV)>,
    count: int,
) -> Seq<(TermV, TermV)>
    decreases count,
{
    if count <= 0 {
        Seq::empty()
    } else {
        let before = shared_right(left, right, count - 1);
        match assoc(right, left[count - 1].0) {
            Some(value) => before.push((left[count - 1].0, value)),
            None => before,
        }
    }
}

proof fn lemma_shared(left: Seq<(TermV, TermV)>, right: Seq<(TermV, TermV)>, count: int)
    requires
        0 <= count <= left.len(),
    ensures
        ({
            let ours = shared_left(left, right, count);
            let theirs = shared_right(left, right, count);
            let pairs = common_values(left, right, count);
            &&& ours.len() == theirs.len() == pairs.len()
            &&& forall|i: int|
                0 <= i < pairs.len() ==> #[trigger] pairs[i] == (ours[i].1, theirs[i].1)
                    && ours[i].0 == theirs[i].0
        }),
    decreases count,
{
    if count > 0 {
        lemma_shared(left, right, count - 1);
    }
}

/// The entries of one side are those with a counterpart and those without.
proof fn lemma_left_split(
    left: Seq<(TermV, TermV)>,
    right: Seq<(TermV, TermV)>,
    count: int,
    item: (TermV, TermV),
)
    requires
        0 <= count <= left.len(),
    ensures
        shared_left(left, right, count).contains(item) <==> left.take(count).contains(item)
            && assoc(right, item.0) is Some,
        unmatched(left, right, count).contains(item) <==> left.take(count).contains(item) && assoc(
            right,
            item.0,
        ) is None,
    decreases count,
{
    if count > 0 {
        lemma_left_split(left, right, count - 1, item);
        assert(left.take(count) =~= left.take(count - 1).push(left[count - 1]));
        lemma_push_contains(left.take(count - 1), left[count - 1], item);
        lemma_push_contains(shared_left(left, right, count - 1), left[count - 1], item);
        lemma_push_contains(unmatched(left, right, count - 1), left[count - 1], item);
    }
}

/// The counterparts are the entries of the other side whose key this side has.
proof fn lemma_right_shared(
    left: Seq<(TermV, TermV)>,
    right: Seq<(TermV, TermV)>,
    count: int,
    item: (TermV, TermV),
)
    requires
        0 <= count <= left.len(),
    ensures
        shared_right(left, right, count).contains(item) <==> assoc(right, item.0) == Some(item.1)
            && exists|i: int| 0 <= i < count && (#[trigger] left[i]).0 == item.0,
    decreases count,
{
    if count > 0 {
        lemma_right_shared(left, right, count - 1, item);
        let before = shared_right(left, right, count - 1);
        if let Some(value) = assoc(right, left[count - 1].0) {
            lemma_push_contains(before, (left[count - 1].0, value), item);
        }
        if assoc(right, item.0) == Some(item.1) && exists|i: int|
            0 <= i < count && (#[trigger] left[i]).0 == item.0 {
            let i: int = choose|i: int| 0 <= i < count && (#[trigger] left[i]).0 == item.0;
            if i < count - 1 {
                assert(before.contains(item));
            }
        }
    }
}

proof fn lemma_right_split(left: Seq<(TermV, TermV)>, right: Seq<(TermV, TermV)>)
    requires
        keys_differ(right),
    ensures
        same_items(
            shared_right(left, right, left.len() as int) + unmatched(
                right,
                left,
                right.len() as int,
            ),
            right,
        ),
{
    let shared = shared_right(left, right, left.len() as int);
    let open = unmatched(right, left, right.len() as int);
    assert(right.take(right.len() as int) =~= right);
    assert forall|item: (TermV, TermV)| #[trigger] (shared + open).contains(item)
        <==> right.contains(item) by {
        lemma_joined_contains(shared, open, item);
        lemma_right_shared(left, right, left.len() as int, item);
        lemma_left_split(right, left, right.len() as int, item);
        lemma_entry_of(right, item.0, item.1, 0);
        lemma_entry_of(left, item.0, item.1, 0);
        if right.contains(item) {
            let at: int = choose|at: int| 0 <= at < right.len() && right[at] == item;
            lemma_entry_stands(right, at, 0);
            if let Some(value) = assoc(left, item.0) {
                lemma_entry_of(left, item.0, value, 0);
                let i: int = choose|i: int| 0 <= i < left.len() && left[i] == (item.0, value);
                assert(left[i].0 == item.0);
            }
        }
    }
}

/// The entries are those with a constructor-like key and the others.
proof fn lemma_with_keys(entries: Seq<(TermV, TermV)>, count: int, item: (TermV, TermV))
    requires
        0 <= count <= entries.len(),
    ensures
        with_keys(entries, true, count).contains(item) || with_keys(entries, false, count).contains(
            item,
        ) <==> entries.take(count).contains(item),
        with_keys(entries, true, count).len() + with_keys(entries, false, count).len() == count,
    decreases count,
{
    if count > 0 {
        lemma_with_keys(entries, count - 1, item);
        let last = entries[count - 1];
        assert(entries.take(count) =~= entries.take(count - 1).push(last));
        lemma_push_contains(entries.take(count - 1), last, item);
        lemma_push_contains(with_keys(entries, true, count - 1), last, item);
        lemma_push_contains(with_keys(entries, false, count - 1), last, item);
    }
}

proof fn lemma_remainder_entries(entries: Seq<(TermV, TermV)>, rest: Option<TermV>)
    ensures
        ({
            let remainder = map_remainder(entries, rest);
            &&& same_items(remainder.concrete + remainder.symbolic, entries)
            &&& remainder.concrete.len() + remainder.symbolic.len() == entries.len()
            &&& entries.len() == 1 && remainder.concrete.len() == 1 ==> remainder.concrete[0]
                == entries[0]
            &&& entries.len() == 1 && remainder.symbolic.len() == 1 ==> remainder.symbolic[0]
                == entries[0]
        }),
{
    let remainder = map_remainder(entries, rest);
    let count = entries.len() as int;
    assert(entries.take(count) =~= entries);
    lemma_with_keys(entries, count, arbitrary());
    assert forall|item: (TermV, TermV)| #[trigger] (remainder.concrete
        + remainder.symbolic).contains(item) <==> entries.contains(item) by {
        lemma_joined_contains(remainder.concrete, remainder.symbolic, item);
        lemma_with_keys(entries, count, item);
    }
    if entries.len() == 1 {
        if remainder.concrete.len() == 1 {
            lemma_with_keys(entries, count, remainder.concrete[0]);
            assert(remainder.concrete.contains(remainder.concrete[0]));
        }
        if remainder.symbolic.len() == 1 {
            lemma_with_keys(entries, count, remainder.symbolic[0]);
            assert(remainder.symbolic.contains(remainder.symbolic[0]));
        }
    }
}

// ---------------------------------------------------------------------------------------------
// Maps
// ---------------------------------------------------------------------------------------------
/// Whether the keys and values of `entries` can stand on the side of the subject.
pub open spec fn entries_fit(entries: Seq<(TermV, TermV)>, whole: Whole) -> bool {
    forall|i: int|
        0 <= i < entries.len() ==> fits((#[trigger] entries[i]).0, whole) && fits(
            entries[i].1,
            whole,
        )
}

/// Whether the keys and values of `entries` can stand on the side of the pattern.
pub open spec fn entries_part(entries: Seq<(TermV, TermV)>, whole: Whole) -> bool {
    forall|i: int|
        0 <= i < entries.len() ==> part((#[trigger] entries[i]).0, whole) && part(
            entries[i].1,
            whole,
        )
}

/// Whether a variable occurs in one of `entries`.
pub open spec fn occurs_in_entries(variable: VariableV, entries: Seq<(TermV, TermV)>) -> bool {
    exists|i: int|
        0 <= i < entries.len() && (occurs(variable, (#[trigger] entries[i]).0) || occurs(
            variable,
            entries[i].1,
        ))
}

proof fn lemma_entries_among(variable: VariableV, entries: Seq<(TermV, TermV)>)
    ensures
        occurs_among(variable, flat_entries(entries)) <==> occurs_in_entries(variable, entries),
{
    let all = flat_entries(entries);
    if occurs_among(variable, all) {
        let i: int = choose|i: int| 0 <= i < all.len() && occurs(variable, #[trigger] all[i]);
        assert(0 <= i / 2 < entries.len());
        assert(occurs(variable, entries[i / 2].0) || occurs(variable, entries[i / 2].1));
    }
    if occurs_in_entries(variable, entries) {
        let i: int = choose|i: int|
            0 <= i < entries.len() && (occurs(variable, (#[trigger] entries[i]).0) || occurs(
                variable,
                entries[i].1,
            ));
        assert(all[2 * i] == entries[i].0);
        assert(all[2 * i + 1] == entries[i].1);
    }
}

proof fn lemma_entries_contained(
    variable: VariableV,
    fewer: Seq<(TermV, TermV)>,
    entries: Seq<(TermV, TermV)>,
)
    requires
        forall|i: int| 0 <= i < fewer.len() ==> entries.contains(#[trigger] fewer[i]),
    ensures
        occurs_in_entries(variable, fewer) ==> occurs_in_entries(variable, entries),
{
    if occurs_in_entries(variable, fewer) {
        let i: int = choose|i: int|
            0 <= i < fewer.len() && (occurs(variable, (#[trigger] fewer[i]).0) || occurs(
                variable,
                fewer[i].1,
            ));
        assert(entries.contains(fewer[i]));
        let j: int = choose|j: int| 0 <= j < entries.len() && entries[j] == fewer[i];
        assert(occurs(variable, entries[j].0) || occurs(variable, entries[j].1));
    }
}

/// A variable in a map is one in its parts.
proof fn lemma_occurs_map(
    variable: VariableV,
    definition: CollectionDefinitionV,
    entries: Seq<(TermV, TermV)>,
    rest: Option<Box<TermV>>,
)
    requires
        occurs(variable, map_term(definition, entries, rest)),
    ensures
        occurs_in_entries(variable, entries) || occurs_in_rest(variable, rest),
{
    let term = map_term(definition, entries, rest);
    reveal(map_term);
    let same = rest is Some && *rest->0 is KMap && (*rest->0)->KMap_definition == definition;
    if same && (*rest->0)->KMap_rest is Some && term == *(*rest->0)->KMap_rest->0 {
        let inner = *rest->0;
        lemma_map_children(inner);
        assert(occurs(variable, rest_seq(inner->KMap_rest)[0]));
        lemma_among_children(
            variable,
            inner,
            rest_seq(inner->KMap_rest),
            2 * inner->KMap_entries.len() as int,
        );
    } else if !occurs_in_rest(variable, rest) {
        assert(term is KMap);
        lemma_map_children(term);
        lemma_some_child(variable, term, 0);
        let own = term->KMap_entries;
        lemma_among_joined(variable, flat_entries(own), rest_seq(term->KMap_rest));
        lemma_entries_among(variable, own);
        if same {
            let inner = *rest->0;
            lemma_map_children(inner);
            let more = inner->KMap_entries;
            lemma_sorted_empty::<(Term, Term)>(entries + more);
            lemma_entries_contained(variable, own, entries + more);
            if occurs_in_entries(variable, entries + more) {
                let all = entries + more;
                let i: int = choose|i: int|
                    0 <= i < all.len() && (occurs(variable, (#[trigger] all[i]).0) || occurs(
                        variable,
                        all[i].1,
                    ));
                if i < entries.len() {
                    assert(entries[i] == all[i]);
                } else {
                    assert(more[i - entries.len()] == all[i]);
                    assert(occurs_in_entries(variable, more));
                }
            }
            if occurs_in_entries(variable, more) {
                lemma_entries_among(variable, more);
                lemma_among_children(variable, inner, flat_entries(more), 0);
            }
            if occurs_among(variable, rest_seq(inner->KMap_rest)) {
                lemma_among_children(
                    variable,
                    inner,
                    rest_seq(inner->KMap_rest),
                    2 * more.len() as int,
                );
            }
        } else {
            lemma_sorted_empty::<(Term, Term)>(entries);
            lemma_entries_contained(variable, own, entries);
            if occurs_among(variable, rest_seq(rest)) {
                let i: int = choose|i: int|
                    0 <= i < rest_seq(rest).len() && occurs(variable, #[trigger] rest_seq(rest)[i]);
                assert(occurs(variable, *rest->0));
            }
        }
    }
}

proof fn lemma_map_fits(
    definition: CollectionDefinitionV,
    entries: Seq<(TermV, TermV)>,
    rest: Option<Box<TermV>>,
    whole: Whole,
)
    requires
        entries_fit(entries, whole),
        rest is Some ==> fits(*rest->0, whole),
    ensures
        fits(map_term(definition, entries, rest), whole),
{
    lemma_map_normal(definition, entries, rest);
    let term = map_term(definition, entries, rest);
    assert forall|v: VariableV| #[trigger] barred(v, whole) implies !occurs(v, term) by {
        if occurs(v, term) {
            lemma_occurs_map(v, definition, entries, rest);
        }
    }
}

proof fn lemma_contained_fit(
    fewer: Seq<(TermV, TermV)>,
    entries: Seq<(TermV, TermV)>,
    whole: Whole,
)
    requires
        entries_fit(entries, whole),
        forall|i: int| 0 <= i < fewer.len() ==> entries.contains(#[trigger] fewer[i]),
    ensures
        entries_fit(fewer, whole),
{
    assert forall|i: int| 0 <= i < fewer.len() implies fits((#[trigger] fewer[i]).0, whole) && fits(
        fewer[i].1,
        whole,
    ) by {
        assert(entries.contains(fewer[i]));
        let j: int = choose|j: int| 0 <= j < entries.len() && entries[j] == fewer[i];
        assert(fits(entries[j].0, whole));
    }
}

/// The parts of two maps stand where the maps stand.
proof fn lemma_map_parts(pattern: TermV, subject: TermV, whole: Whole)
    requires
        pattern is KMap,
        subject is KMap,
        part(pattern, whole),
        fits(subject, whole),
    ensures
        !ordered(whole.pattern),
        pattern->KMap_rest is Some ==> part(*pattern->KMap_rest->0, whole),
        entries_part(pattern->KMap_entries, whole),
        entries_fit(subject->KMap_entries, whole),
        subject->KMap_rest is Some ==> fits(*subject->KMap_rest->0, whole),
{
    lemma_map_children(pattern);
    lemma_map_children(subject);
    let entries = pattern->KMap_entries;
    let others = subject->KMap_entries;
    if pattern->KMap_rest is Some {
        let i = 2 * entries.len() as int;
        assert(children(pattern)[i] == *pattern->KMap_rest->0);
        lemma_part_child(pattern, whole, i);
    }
    if subject->KMap_rest is Some {
        let i = 2 * others.len() as int;
        assert(children(subject)[i] == *subject->KMap_rest->0);
        lemma_fits_child(subject, whole, i);
    }
    assert forall|i: int| 0 <= i < entries.len() implies part((#[trigger] entries[i]).0, whole)
        && part(entries[i].1, whole) by {
        assert(children(pattern)[2 * i] == entries[i].0);
        assert(children(pattern)[2 * i + 1] == entries[i].1);
        lemma_part_child(pattern, whole, 2 * i);
        lemma_part_child(pattern, whole, 2 * i + 1);
    }
    assert forall|i: int| 0 <= i < others.len() implies fits((#[trigger] others[i]).0, whole)
        && fits(others[i].1, whole) by {
        assert(children(subject)[2 * i] == others[i].0);
        assert(children(subject)[2 * i + 1] == others[i].1);
        lemma_fits_child(subject, whole, 2 * i);
        lemma_fits_child(subject, whole, 2 * i + 1);
    }
}

/// What an entry of a map pattern becomes, where its key became one of the subject.
pub open spec fn value_replaced(entry: (TermV, TermV), last: SubstitutionV) -> (TermV, TermV) {
    (entry.0, substituted(entry.1, last))
}

/// `entries` with their values under a substitution.
pub open spec fn values_replaced(entries: Seq<(TermV, TermV)>, last: SubstitutionV) -> Seq<
    (TermV, TermV),
> {
    entries.map(|_i: int, entry: (TermV, TermV)| value_replaced(entry, last))
}

/// What the entries of a map pattern become: those whose key is in the subject, and the others.
#[verifier::spinoff_prover]
proof fn lemma_entries_replaced(
    entries: Seq<(TermV, TermV)>,
    left: Seq<(TermV, TermV)>,
    right: Seq<(TermV, TermV)>,
    before: SubstitutionV,
    last: SubstitutionV,
    whole: Whole,
)
    requires
        steady(before, whole),
        steady(last, whole),
        extends(last, before),
        entries_fit(right, whole),
        same_items(left, keys_substituted(entries, before)),
    ensures
        same_items(
            entries_replaced(entries, last),
            values_replaced(shared_left(left, right, left.len() as int), last) + entries_replaced(
                unmatched(left, right, left.len() as int),
                last,
            ),
        ),
{
    let now = keys_substituted(entries, before);
    let count = left.len() as int;
    let shared = shared_left(left, right, count);
    let open = unmatched(left, right, count);
    let done = entries_replaced(entries, last);
    let kept = values_replaced(shared, last);
    let opened = entries_replaced(open, last);
    assert(left.take(count) =~= left);
    assert forall|item: (TermV, TermV)| #[trigger] done.contains(item) <==> (kept
        + opened).contains(item) by {
        lemma_joined_contains(kept, opened, item);
        if done.contains(item) {
            let i: int = choose|i: int| 0 <= i < done.len() && done[i] == item;
            let entry = now[i];
            assert(now.contains(entry));
            assert(left.contains(entry));
            lemma_left_split(left, right, count, entry);
            lemma_key_replaced(entries[i].0, right, before, last, whole);
            if assoc(right, entry.0) is Some {
                let j: int = choose|j: int| 0 <= j < shared.len() && shared[j] == entry;
                assert(kept[j] == item);
            } else {
                let j: int = choose|j: int| 0 <= j < open.len() && open[j] == entry;
                assert(opened[j] == item);
            }
        }
        if kept.contains(item) {
            let j: int = choose|j: int| 0 <= j < kept.len() && kept[j] == item;
            let entry = shared[j];
            assert(shared.contains(entry));
            lemma_left_split(left, right, count, entry);
            assert(now.contains(entry));
            let i: int = choose|i: int| 0 <= i < now.len() && now[i] == entry;
            lemma_key_replaced(entries[i].0, right, before, last, whole);
            assert(done[i] == item);
        }
        if opened.contains(item) {
            let j: int = choose|j: int| 0 <= j < opened.len() && opened[j] == item;
            let entry = open[j];
            assert(open.contains(entry));
            lemma_left_split(left, right, count, entry);
            assert(now.contains(entry));
            let i: int = choose|i: int| 0 <= i < now.len() && now[i] == entry;
            lemma_key_replaced(entries[i].0, right, before, last, whole);
            assert(done[i] == item);
        }
    }
}

proof fn lemma_key_replaced(
    key: TermV,
    right: Seq<(TermV, TermV)>,
    before: SubstitutionV,
    last: SubstitutionV,
    whole: Whole,
)
    requires
        steady(before, whole),
        steady(last, whole),
        extends(last, before),
        entries_fit(right, whole),
    ensures
        substituted(substituted(key, before), last) == substituted(key, last),
        assoc(right, substituted(key, before)) is Some ==> substituted(key, last) == substituted(
            key,
            before,
        ),
{
    lemma_bound_before(key, before, last, whole);
    let now = substituted(key, before);
    if let Some(value) = assoc(right, now) {
        lemma_entry_of(right, now, value, 0);
        let j: int = choose|j: int| 0 <= j < right.len() && right[j] == (now, value);
        assert(fits(right[j].0, whole));
        lemma_settled(key, before, last, whole);
    }
}

/// The entries that a step leaves over on either side.
proof fn lemma_left_over(
    entries: Seq<(TermV, TermV)>,
    others: Seq<(TermV, TermV)>,
    before: SubstitutionV,
    whole: Whole,
)
    requires
        steady(before, whole),
        entries_fit(others, whole),
        entries_part(entries, whole),
        keys_differ(keys_substituted(entries, before)),
        keys_differ(others),
        !ordered(whole.pattern),
    ensures
        ({
            let now = keys_substituted(entries, before);
            let left = collected::<Term, TermV>(now);
            let right = collected::<Term, TermV>(others);
            let open = unmatched(left, right, left.len() as int);
            let others_open = unmatched(right, left, right.len() as int);
            let shared = shared_left(left, right, left.len() as int);
            let others_shared = shared_right(left, right, left.len() as int);
            &&& same_items(left, now)
            &&& entries_fit(right, whole)
            &&& entries_fit(others_open, whole)
            &&& entries_fit(others_shared, whole)
            &&& forall|i: int|
                0 <= i < open.len() ==> part((#[trigger] open[i]).0, whole) && part(
                    open[i].1,
                    whole,
                )
            &&& forall|i: int| 0 <= i < shared.len() ==> part((#[trigger] shared[i]).1, whole)
            &&& same_items(others_shared + others_open, others)
        }),
{
    let now = keys_substituted(entries, before);
    let left = collected::<Term, TermV>(now);
    let right = collected::<Term, TermV>(others);
    let count = left.len() as int;
    let open = unmatched(left, right, count);
    let others_open = unmatched(right, left, right.len() as int);
    let shared = shared_left(left, right, count);
    let others_shared = shared_right(left, right, count);
    lemma_collected(now, now.len() as int);
    lemma_collected(others, others.len() as int);
    assert(now.take(now.len() as int) =~= now);
    assert(others.take(others.len() as int) =~= others);
    assert(left.take(count) =~= left);
    assert(right.take(right.len() as int) =~= right);
    lemma_right_split(left, right);
    let all = others_shared + others_open;
    assert forall|item: (TermV, TermV)| #[trigger] all.contains(item) <==> others.contains(
        item,
    ) by {
        assert(all.contains(item) <==> right.contains(item));
        assert(right.contains(item) <==> others.contains(item));
    }
    assert forall|i: int| 0 <= i < right.len() implies others.contains(#[trigger] right[i]) by {
        assert(right.contains(right[i]));
    }
    lemma_contained_fit(right, others, whole);
    assert forall|i: int| 0 <= i < others_open.len() implies others.contains(
        #[trigger] others_open[i],
    ) by {
        assert(all[others_shared.len() + i] == others_open[i]);
        assert(all.contains(others_open[i]));
    }
    lemma_contained_fit(others_open, others, whole);
    assert forall|i: int| 0 <= i < others_shared.len() implies others.contains(
        #[trigger] others_shared[i],
    ) by {
        assert(all[i] == others_shared[i]);
        assert(all.contains(others_shared[i]));
    }
    lemma_contained_fit(others_shared, others, whole);
    assert forall|i: int| 0 <= i < open.len() implies part((#[trigger] open[i]).0, whole) && part(
        open[i].1,
        whole,
    ) by {
        assert(open.contains(open[i]));
        lemma_left_split(left, right, count, open[i]);
        lemma_left_part(entries, open[i], before, whole);
    }
    assert forall|i: int| 0 <= i < shared.len() implies part((#[trigger] shared[i]).1, whole) by {
        assert(shared.contains(shared[i]));
        lemma_left_split(left, right, count, shared[i]);
        lemma_left_part(entries, shared[i], before, whole);
    }
}

proof fn lemma_left_part(
    entries: Seq<(TermV, TermV)>,
    entry: (TermV, TermV),
    before: SubstitutionV,
    whole: Whole,
)
    requires
        steady(before, whole),
        entries_part(entries, whole),
        keys_substituted(entries, before).contains(entry),
        !ordered(whole.pattern),
    ensures
        part(entry.0, whole),
        part(entry.1, whole),
{
    let now = keys_substituted(entries, before);
    let i: int = choose|i: int| 0 <= i < now.len() && now[i] == entry;
    assert(part(entries[i].0, whole) && part(entries[i].1, whole));
    lemma_part_substituted(entries[i].0, before, whole);
}

/// Maps whose shared entries were matched, with more entries on either side that are alike.
proof fn lemma_maps_alike(
    definition: CollectionDefinitionV,
    shared: Seq<(TermV, TermV)>,
    others: Seq<(TermV, TermV)>,
    more: Seq<(TermV, TermV)>,
    others_more: Seq<(TermV, TermV)>,
    rest: Option<Box<TermV>>,
    others_rest: Option<Box<TermV>>,
    whole: Whole,
    last: SubstitutionV,
)
    requires
        shared.len() == others.len(),
        forall|i: int|
            0 <= i < shared.len() ==> (#[trigger] shared[i]).0 == others[i].0 && alike(
                whole.overloads,
                substituted(shared[i].1, last),
                others[i].1,
            ),
        entries_alike(whole.overloads, more, others_more),
        rests_alike(whole.overloads, rest, others_rest),
    ensures
        alike(
            whole.overloads,
            map_term(definition, values_replaced(shared, last) + more, rest),
            map_term(definition, others + others_more, others_rest),
        ),
{
    let ours = values_replaced(shared, last) + more;
    let theirs = others + others_more;
    assert forall|i: int| 0 <= i < ours.len() implies alike(whole.overloads, (#[trigger] ours[i]).0, theirs[i].0)
        && alike(whole.overloads, ours[i].1, theirs[i].1) by {
        if i < shared.len() {
            assert(shared[i].0 == others[i].0);
            lemma_alike_equal(whole.overloads, others[i].0);
        } else {
            let j = i - shared.len();
            assert(ours[i] == more[j]);
            assert(theirs[i] == others_more[j]);
            assert(alike(whole.overloads, more[j].0, others_more[j].0));
        }
    }
    lemma_alike_map(whole.overloads, definition, ours, rest, theirs, others_rest);
}

/// The step that matches two maps keeps what was matched, and is sound.
#[verifier::spinoff_prover]
pub proof fn lemma_maps_step(
    mode: MatchMode,
    rest: ProgressV,
    pattern: TermV,
    subject: TermV,
    whole: Whole,
    last: SubstitutionV,
)
    requires
        pattern is KMap,
        subject is KMap,
        pattern->KMap_definition == subject->KMap_definition,
        steady(rest.substitution, whole),
        steady(last, whole),
        part(pattern, whole),
        fits(subject, whole),
        maps_step(
            mode,
            rest,
            pattern->KMap_definition,
            pattern->KMap_entries,
            opened(pattern->KMap_rest),
            subject->KMap_entries,
            opened(subject->KMap_rest),
        ) is Ok,
    ensures
        ({
            let next = maps_step(
                mode,
                rest,
                pattern->KMap_definition,
                pattern->KMap_entries,
                opened(pattern->KMap_rest),
                subject->KMap_entries,
                opened(subject->KMap_rest),
            )->Ok_0;
            kept_step(rest, next, whole) && sound_step(rest, next, pattern, subject, whole, last)
        }),
{
    let definition = pattern->KMap_definition;
    let entries = pattern->KMap_entries;
    let others = subject->KMap_entries;
    let before = rest.substitution;
    let inner = opened(pattern->KMap_rest);
    let others_inner = opened(subject->KMap_rest);
    let next = maps_step(mode, rest, definition, entries, inner, others, others_inner)->Ok_0;
    lemma_map_rest(subject);
    lemma_map_parts(pattern, subject, whole);
    let now = keys_substituted(entries, before);
    lemma_keys_differ(now);
    lemma_keys_differ(others);
    if !opaque_rest(definition, inner) && !opaque_rest(definition, others_inner) {
        lemma_left_over(entries, others, before, whole);
        let left = collected::<Term, TermV>(now);
        let right = collected::<Term, TermV>(others);
        let count = left.len() as int;
        let open = unmatched(left, right, count);
        let others_open = unmatched(right, left, right.len() as int);
        let shared = shared_left(left, right, count);
        let others_shared = shared_right(left, right, count);
        let values = common_values(left, right, count);
        let remainder = map_remainder(open, inner);
        let others_remainder = map_remainder(others_open, others_inner);
        let (between, pairs) = remainders_step(
            mode,
            rest,
            definition,
            remainder,
            others_remainder,
        )->Ok_0;
        let start = rest.queue.len() as int;
        let none = Seq::<(TermV, TermV)>::empty();
        let others_left = others_remainder.concrete + others_remainder.symbolic;
        lemma_shared(left, right, count);
        lemma_remainder_entries(open, inner);
        lemma_remainder_entries(others_open, others_inner);
        assert forall|i: int| 0 <= i < others_left.len() implies others_open.contains(
            #[trigger] others_left[i],
        ) by {
            assert(others_left.contains(others_left[i]));
        }
        lemma_contained_fit(others_left, others_open, whole);
        lemma_map_fits(definition, others_left, subject->KMap_rest, whole);
        lemma_map_fits(definition, none, None, whole);
        let empty = map_term(definition, none, None);
        let others_map = map_term(definition, others_left, subject->KMap_rest);
        assert(boxed_rest(others_inner) == subject->KMap_rest);
        assert(remainder_map(definition, others_remainder) == others_map);
        assert forall|i: int| 0 <= i < values.len() implies part((#[trigger] values[i]).0, whole)
            && fits(values[i].1, whole) by {
            assert(values[i] == (shared[i].1, others_shared[i].1));
            assert(part(shared[i].1, whole));
            assert(fits(others_shared[i].0, whole));
        }
        assert(pairs_fit(pairs, 0, whole));
        assert(next == enqueued_all(between, values + pairs));
        assert forall|i: int| start <= i < next.queue.len() implies part(
            (#[trigger] next.queue[i]).0,
            whole,
        ) && fits(next.queue[i].1, whole) by {
            let k = i - start;
            if k < values.len() {
                assert(next.queue[i] == values[k]);
            } else {
                assert(next.queue[i] == pairs[k - values.len()]);
            }
        }
        assert(kept_step(rest, next, whole));
        if next.indeterminate.len() == rest.indeterminate.len() && extends(last, before)
            && pairs_hold(whole.overloads, next.queue, start, last) {
            assert forall|i: int| 0 <= i < shared.len() implies (#[trigger] shared[i]).0
                == others_shared[i].0 && alike(
                whole.overloads,
                substituted(shared[i].1, last),
                others_shared[i].1,
            ) by {
                assert(values[i] == (shared[i].1, others_shared[i].1));
                assert(next.queue[start + i] == values[i]);
            }
            assert forall|i: int| 0 <= i < pairs.len() implies alike(
                whole.overloads,
                substituted((#[trigger] pairs[i]).0, last),
                pairs[i].1,
            ) by {
                assert(next.queue[start + values.len() + i] == pairs[i]);
            }
            lemma_map_replaced(pattern, last);
            lemma_entries_replaced(entries, left, right, before, last, whole);
            let opened_last = entries_replaced(open, last);
            let ours_rest = rest_replaced(pattern->KMap_rest, last);
            lemma_map_same(
                definition,
                entries_replaced(entries, last),
                values_replaced(shared, last) + opened_last,
                ours_rest,
            );
            lemma_map_same(definition, others_shared + others_open, others, subject->KMap_rest);
            assert(remainder.concrete.len() == 0);
            if remainder.symbolic.len() == 0 {
                assert(opened_last =~= none);
                if let Some(rest_term) = inner {
                    assert(pairs[0] == (rest_term, others_map));
                    lemma_maps_alike(
                        definition,
                        shared,
                        others_shared,
                        none,
                        none,
                        ours_rest,
                        Some(Box::new(others_map)),
                        whole,
                        last,
                    );
                    assert(others_shared + none =~= others_shared);
                    lemma_map_merged(definition, others_shared, others_left, subject->KMap_rest);
                    lemma_joined_items(others_shared, others_left, others_open);
                    lemma_map_same(
                        definition,
                        others_shared + others_left,
                        others_shared + others_open,
                        subject->KMap_rest,
                    );
                } else {
                    assert(others_open =~= none);
                    lemma_maps_alike(
                        definition,
                        shared,
                        others_shared,
                        none,
                        none,
                        None,
                        None,
                        whole,
                        last,
                    );
                }
            } else {
                assert(open.len() == 1 && others_open.len() == 1);
                assert(subject->KMap_rest is None);
                let entry = others_open[0];
                assert(pairs[0] == (open[0].0, entry.0));
                assert(pairs[1] == (open[0].1, entry.1));
                assert(entries_alike(whole.overloads, opened_last, others_open)) by {
                    assert(opened_last[0] == (
                        substituted(open[0].0, last),
                        substituted(open[0].1, last),
                    ));
                }
                if let Some(rest_term) = inner {
                    assert(pairs[2] == (rest_term, empty));
                    lemma_maps_alike(
                        definition,
                        shared,
                        others_shared,
                        opened_last,
                        others_open,
                        ours_rest,
                        Some(Box::new(empty)),
                        whole,
                        last,
                    );
                    let theirs = others_shared + others_open;
                    lemma_map_merged(definition, theirs, none, None);
                    assert(theirs + none =~= theirs);
                } else {
                    lemma_maps_alike(
                        definition,
                        shared,
                        others_shared,
                        opened_last,
                        others_open,
                        None,
                        None,
                        whole,
                        last,
                    );
                }
            }
        }
    }
}

} // verus!
