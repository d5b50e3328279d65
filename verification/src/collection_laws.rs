//! Collections in normal form, and what substitutions do to them.

use vstd::prelude::*;
use crate::assoc::assoc_from;
use crate::construct::{list_term, map_term, set_term};
use crate::match_laws::{lemma_normal_child, normal, normal_from};
use crate::ops::{children, flat_entries, lemma_child_smaller, rest_seq, sorted, Keyed};
use crate::order::{law_sorted, law_sorted_is_canonical, same_items};
use crate::rebuild::{paired, with_children};
use crate::substitution::{
    composed, composed_values, substituted, substituted_child, substituted_children, SubstitutionV,
};
use crate::substitution_laws::{binds_once, lemma_composed_from, lemma_values};
use crate::term::{CollectionDefinitionV, Term, TermV, VariableV};

verus! {

// ---------------------------------------------------------------------------------------------
// Parts
// ---------------------------------------------------------------------------------------------
/// Whether all of `terms` are in normal form.
pub open spec fn all_normal(terms: Seq<TermV>) -> bool {
    forall|i: int| 0 <= i < terms.len() ==> normal(#[trigger] terms[i])
}

/// Whether the keys and values of `entries` are in normal form.
pub open spec fn entries_normal(entries: Seq<(TermV, TermV)>) -> bool {
    forall|i: int|
        0 <= i < entries.len() ==> normal((#[trigger] entries[i]).0) && normal(entries[i].1)
}

/// Whether the rest of a collection is in normal form, where it has one.
pub open spec fn rest_normal(rest: Option<Box<TermV>>) -> bool {
    rest is Some ==> normal(*rest->0)
}

/// Whether a substitution gives terms in normal form.
pub open spec fn values_normal(substitution: SubstitutionV) -> bool {
    forall|i: int| 0 <= i < substitution.len() ==> normal((#[trigger] substitution[i]).1)
}

/// `terms` under a substitution.
pub open spec fn all_replaced(terms: Seq<TermV>, substitution: SubstitutionV) -> Seq<TermV> {
    terms.map(|_i: int, term: TermV| substituted(term, substitution))
}

/// `entries` under a substitution.
pub open spec fn entries_replaced(
    entries: Seq<(TermV, TermV)>,
    substitution: SubstitutionV,
) -> Seq<(TermV, TermV)> {
    entries.map(
        |_i: int, entry: (TermV, TermV)|
            (substituted(entry.0, substitution), substituted(entry.1, substitution)),
    )
}

/// The rest of a collection under a substitution.
pub open spec fn rest_replaced(
    rest: Option<Box<TermV>>,
    substitution: SubstitutionV,
) -> Option<Box<TermV>> {
    match rest {
        Some(rest) => Some(Box::new(substituted(*rest, substitution))),
        None => None,
    }
}

proof fn lemma_all_children_normal(term: TermV, from: int)
    requires
        0 <= from <= children(term).len(),
        all_normal(children(term)),
    ensures
        normal_from(term, from),
    decreases children(term).len() - from,
{
    if from < children(term).len() {
        lemma_child_smaller(term, from);
        assert(normal(children(term)[from]));
        lemma_all_children_normal(term, from + 1);
    }
}

proof fn lemma_children_normal(term: TermV)
    requires
        normal(term),
    ensures
        all_normal(children(term)),
{
    assert forall|i: int| 0 <= i < children(term).len() implies normal(
        #[trigger] children(term)[i],
    ) by {
        lemma_normal_child(term, 0, i);
    }
}

// ---------------------------------------------------------------------------------------------
// Sorted items
// ---------------------------------------------------------------------------------------------
pub proof fn lemma_joined_items<A>(left: Seq<A>, right: Seq<A>, other: Seq<A>)
    requires
        same_items(right, other),
    ensures
        same_items(left + right, left + other),
{
    assert forall|item: A| #[trigger] (left + right).contains(item) <==> (left + other).contains(
        item,
    ) by {
        lemma_joined_contains(left, right, item);
        lemma_joined_contains(left, other, item);
        assert(right.contains(item) <==> other.contains(item));
    }
}

pub proof fn lemma_joined_contains<A>(left: Seq<A>, right: Seq<A>, item: A)
    ensures
        (left + right).contains(item) <==> left.contains(item) || right.contains(item),
{
    if left.contains(item) {
        let i: int = choose|i: int| 0 <= i < left.len() && left[i] == item;
        assert((left + right)[i] == item);
    }
    if right.contains(item) {
        let i: int = choose|i: int| 0 <= i < right.len() && right[i] == item;
        assert((left + right)[left.len() + i] == item);
    }
    if (left + right).contains(item) {
        let i: int = choose|i: int| 0 <= i < (left + right).len() && (left + right)[i] == item;
        if i < left.len() {
            assert(left[i] == item);
        } else {
            assert(right[i - left.len()] == item);
        }
    }
}

/// To sort one part of a sequence first changes nothing.
proof fn lemma_sorted_joined<T: Keyed>(left: Seq<T::V>, right: Seq<T::V>)
    ensures
        sorted::<T>(left + sorted::<T>(right)) == sorted::<T>(left + right),
{
    law_sorted::<T>(right);
    lemma_joined_items(left, sorted::<T>(right), right);
    law_sorted_is_canonical::<T>(left + sorted::<T>(right), left + right);
}

pub proof fn lemma_sorted_empty<T: Keyed>(items: Seq<T::V>)
    ensures
        sorted::<T>(items).len() == 0 <==> items.len() == 0,
        sorted::<T>(sorted::<T>(items)) == sorted::<T>(items),
        forall|i: int|
            0 <= i < sorted::<T>(items).len() ==> items.contains(#[trigger] sorted::<T>(items)[i]),
{
    let done = sorted::<T>(items);
    law_sorted::<T>(items);
    law_sorted_is_canonical::<T>(done, items);
    if items.len() > 0 {
        assert(items.contains(items[0]));
        assert(done.contains(items[0]));
    }
    assert forall|i: int| 0 <= i < done.len() implies items.contains(#[trigger] done[i]) by {
        assert(done.contains(done[i]));
    }
    if done.len() > 0 {
        assert(items.contains(done[0]));
    }
}

// ---------------------------------------------------------------------------------------------
// Lists
// ---------------------------------------------------------------------------------------------
pub proof fn lemma_list_children(term: TermV)
    requires
        term is KList,
    ensures
        children(term) == term->KList_heads + rest_seq(term->KList_rest) + term->KList_tails,
        with_children(term, children(term)) == list_term(
            term->KList_definition,
            term->KList_heads,
            term->KList_rest,
            term->KList_tails,
        ),
{
    reveal(children);
    reveal(with_children);
    let heads = term->KList_heads;
    let rest = term->KList_rest;
    let tails = term->KList_tails;
    let all = children(term);
    assert(all.take(heads.len() as int) =~= heads);
    assert(all.skip((heads.len() + rest_seq(rest).len()) as int) =~= tails);
    if rest is Some {
        assert(all[heads.len() as int] == *rest->0);
    }
}

/// The rest of a list in normal form is no list of the same kind, and does not stand alone.
pub proof fn lemma_list_rest(term: TermV)
    requires
        term is KList,
        normal(term),
    ensures
        list_term(
            term->KList_definition,
            term->KList_heads,
            term->KList_rest,
            term->KList_tails,
        ) == term,
        term->KList_rest is None ==> term->KList_tails.len() == 0,
        term->KList_rest is Some ==> term->KList_heads.len() + term->KList_tails.len() > 0,
        term->KList_rest is Some && *term->KList_rest->0 is KList
            ==> (*term->KList_rest->0)->KList_definition != term->KList_definition,
        rest_normal(term->KList_rest),
        all_normal(term->KList_heads),
        all_normal(term->KList_tails),
{
    lemma_list_children(term);
    lemma_children_normal(term);
    reveal(list_term);
    let heads = term->KList_heads;
    let rest = term->KList_rest;
    let tails = term->KList_tails;
    let all = children(term);
    assert forall|i: int| 0 <= i < heads.len() implies normal(#[trigger] heads[i]) by {
        assert(all[i] == heads[i]);
    }
    assert forall|i: int| 0 <= i < tails.len() implies normal(#[trigger] tails[i]) by {
        assert(all[heads.len() + rest_seq(rest).len() + i] == tails[i]);
    }
    if let Some(inner) = rest {
        assert(all[heads.len() as int] == *inner);
        lemma_child_smaller(term, heads.len() as int);
        if *inner is KList && (*inner)->KList_rest is Some {
            let deeper = (*inner)->KList_rest;
            lemma_list_children(*inner);
            assert(children(*inner)[(*inner)->KList_heads.len() as int] == *deeper->0);
            lemma_child_smaller(*inner, (*inner)->KList_heads.len() as int);
            assert(*deeper->0 != *inner);
            assert(*deeper->0 != term);
        }
    }
}

/// A list without items of its own is its rest.
pub proof fn lemma_list_alone(definition: CollectionDefinitionV, term: TermV)
    requires
        normal(term),
    ensures
        list_term(definition, Seq::empty(), Some(Box::new(term)), Seq::empty()) == term,
{
    reveal(list_term);
    if term is KList {
        lemma_list_rest(term);
        assert(Seq::<TermV>::empty() + term->KList_heads =~= term->KList_heads);
        assert(term->KList_tails + Seq::<TermV>::empty() =~= term->KList_tails);
        assert(term->KList_heads + term->KList_tails =~= term->KList_heads
            || term->KList_rest is Some);
    }
}

/// A list in a list is one list.
pub proof fn lemma_list_merged(
    definition: CollectionDefinitionV,
    before: Seq<TermV>,
    heads: Seq<TermV>,
    rest: Option<Box<TermV>>,
    tails: Seq<TermV>,
    after: Seq<TermV>,
)
    requires
        rest_normal(rest),
    ensures
        list_term(
            definition,
            before,
            Some(Box::new(list_term(definition, heads, rest, tails))),
            after,
        ) == list_term(definition, before + heads, rest, tails + after),
{
    reveal(list_term);
    let none = Seq::<TermV>::empty();
    if let Some(inner) = rest {
        if *inner is KList {
            lemma_list_rest(*inner);
            let more = (*inner)->KList_heads;
            let less = (*inner)->KList_tails;
            assert(before + (heads + more) =~= before + heads + more);
            assert((less + tails) + after =~= less + (tails + after));
            assert((before + (heads + more + (less + tails))) + (none + after) =~= (before + heads
                + more) + (less + (tails + after)));
        }
        if heads.len() == 0 && tails.len() == 0 {
            assert(before + heads =~= before);
            assert(tails + after =~= after);
        }
    } else {
        assert((before + (heads + tails)) + (none + after) =~= (before + heads) + (tails + after));
    }
}

/// A list of parts in normal form is in normal form.
pub proof fn lemma_list_normal(
    definition: CollectionDefinitionV,
    heads: Seq<TermV>,
    rest: Option<Box<TermV>>,
    tails: Seq<TermV>,
)
    requires
        all_normal(heads),
        rest_normal(rest),
        all_normal(tails),
    ensures
        normal(list_term(definition, heads, rest, tails)),
{
    let term = list_term(definition, heads, rest, tails);
    reveal(list_term);
    if let Some(inner) = rest {
        if *inner is KList {
            lemma_list_rest(*inner);
        }
    }
    if term is KList && !(rest is Some && *rest->0 == term) {
        let all = children(term);
        lemma_list_children(term);
        assert(all_normal(term->KList_heads));
        assert(all_normal(term->KList_tails));
        assert(rest_normal(term->KList_rest));
        assert(term->KList_heads + term->KList_tails =~= term->KList_heads
            || term->KList_rest is Some);
        assert(with_children(term, all) == term);
        assert(all_normal(all));
        lemma_all_children_normal(term, 0);
    }
}

pub proof fn lemma_list_replaced(term: TermV, substitution: SubstitutionV)
    requires
        term is KList,
    ensures
        substituted(term, substitution) == list_term(
            term->KList_definition,
            all_replaced(term->KList_heads, substitution),
            rest_replaced(term->KList_rest, substitution),
            all_replaced(term->KList_tails, substitution),
        ),
{
    reveal(children);
    reveal(with_children);
    let heads = term->KList_heads;
    let rest = term->KList_rest;
    let tails = term->KList_tails;
    let all = children(term);
    let kids = substituted_children(term, substitution);
    assert forall|i: int| 0 <= i < all.len() implies #[trigger] kids[i] == substituted(
        all[i],
        substitution,
    ) by {
        assert(kids[i] == substituted_child(term, i, substitution));
    }
    let behind = (heads.len() + rest_seq(rest).len()) as int;
    assert(kids.take(heads.len() as int) =~= all_replaced(heads, substitution));
    assert forall|i: int| 0 <= i < tails.len() implies kids.skip(behind)[i] == all_replaced(
        tails,
        substitution,
    )[i] by {
        assert(all[behind + i] == tails[i]);
    }
    assert(kids.skip(behind) =~= all_replaced(tails, substitution));
    if rest is Some {
        assert(all[heads.len() as int] == *rest->0);
    }
}

/// A substitution in a list is one in its parts.
pub proof fn lemma_list_substituted(
    definition: CollectionDefinitionV,
    heads: Seq<TermV>,
    rest: Option<Box<TermV>>,
    tails: Seq<TermV>,
    substitution: SubstitutionV,
)
    requires
        rest_normal(rest),
        values_normal(substitution),
    ensures
        substituted(list_term(definition, heads, rest, tails), substitution) == list_term(
            definition,
            all_replaced(heads, substitution),
            rest_replaced(rest, substitution),
            all_replaced(tails, substitution),
        ),
{
    let term = list_term(definition, heads, rest, tails);
    let first = all_replaced(heads, substitution);
    let last = all_replaced(tails, substitution);
    let none = Seq::<TermV>::empty();
    reveal(list_term);
    if let Some(inner) = rest {
        law_substituted_is_normal(*inner, substitution);
        if *inner is KList && (*inner)->KList_definition == definition {
            lemma_list_rest(*inner);
            let more = (*inner)->KList_heads;
            let less = (*inner)->KList_tails;
            let deeper = (*inner)->KList_rest;
            lemma_list_replaced(*inner, substitution);
            lemma_list_replaced(term, substitution);
            if deeper is Some {
                law_substituted_is_normal(*deeper->0, substitution);
            }
            lemma_list_merged(
                definition,
                first,
                all_replaced(more, substitution),
                rest_replaced(deeper, substitution),
                all_replaced(less, substitution),
                last,
            );
            assert(all_replaced(heads + more, substitution) =~= first + all_replaced(
                more,
                substitution,
            ));
            assert(all_replaced(less + tails, substitution) =~= all_replaced(less, substitution)
                + last);
            assert(all_replaced((heads + more) + (less + tails), substitution) =~= (first
                + all_replaced(more, substitution)) + (all_replaced(less, substitution) + last));
            assert(all_replaced(none, substitution) =~= none);
            assert(((first + all_replaced(more, substitution)) + (all_replaced(less, substitution)
                + last)) + none =~= (first + all_replaced(more, substitution)) + (all_replaced(
                less,
                substitution,
            ) + last));
        } else if heads.len() == 0 && tails.len() == 0 {
            assert(first =~= none);
            assert(last =~= none);
            lemma_list_alone(definition, substituted(*inner, substitution));
        } else {
            lemma_list_replaced(term, substitution);
        }
    } else {
        lemma_list_replaced(term, substitution);
        assert(all_replaced(heads + tails, substitution) =~= first + last);
        assert(all_replaced(none, substitution) =~= none);
        assert((first + last) + none =~= first + last);
    }
}

// ---------------------------------------------------------------------------------------------
// Sets
// ---------------------------------------------------------------------------------------------
pub proof fn lemma_set_children(term: TermV)
    requires
        term is KSet,
    ensures
        children(term) == term->KSet_elements + rest_seq(term->KSet_rest),
        with_children(term, children(term)) == set_term(
            term->KSet_definition,
            term->KSet_elements,
            term->KSet_rest,
        ),
{
    reveal(children);
    reveal(with_children);
    let elements = term->KSet_elements;
    let rest = term->KSet_rest;
    let all = children(term);
    assert(all.take(elements.len() as int) =~= elements);
    if rest is Some {
        assert(all[elements.len() as int] == *rest->0);
    }
}

/// The rest of a set in normal form is no set of the same kind, and does not stand alone.
pub proof fn lemma_set_rest(term: TermV)
    requires
        term is KSet,
        normal(term),
    ensures
        set_term(term->KSet_definition, term->KSet_elements, term->KSet_rest) == term,
        sorted::<Term>(term->KSet_elements) == term->KSet_elements,
        term->KSet_rest is Some ==> term->KSet_elements.len() > 0,
        term->KSet_rest is Some && *term->KSet_rest->0 is KSet
            ==> (*term->KSet_rest->0)->KSet_definition != term->KSet_definition,
        rest_normal(term->KSet_rest),
        all_normal(term->KSet_elements),
{
    lemma_set_children(term);
    lemma_children_normal(term);
    reveal(set_term);
    let elements = term->KSet_elements;
    let rest = term->KSet_rest;
    let all = children(term);
    assert forall|i: int| 0 <= i < elements.len() implies normal(#[trigger] elements[i]) by {
        assert(all[i] == elements[i]);
    }
    lemma_sorted_empty::<Term>(elements);
    if let Some(inner) = rest {
        if *inner is KSet {
            lemma_sorted_empty::<Term>(elements + (*inner)->KSet_elements);
        }
    }
    if let Some(inner) = rest {
        assert(all[elements.len() as int] == *inner);
        lemma_child_smaller(term, elements.len() as int);
        if *inner is KSet && (*inner)->KSet_rest is Some {
            let deeper = (*inner)->KSet_rest;
            let elements = (*inner)->KSet_elements;
            lemma_set_children(*inner);
            assert(children(*inner)[elements.len() as int] == *deeper->0);
            lemma_child_smaller(*inner, elements.len() as int);
            assert(*deeper->0 != *inner);
            assert(*deeper->0 != term);
        }
    }
}

/// A set without elements of its own is its rest.
pub proof fn lemma_set_alone(definition: CollectionDefinitionV, term: TermV)
    requires
        normal(term),
    ensures
        set_term(definition, Seq::empty(), Some(Box::new(term))) == term,
{
    reveal(set_term);
    if term is KSet {
        lemma_set_rest(term);
        assert(Seq::<TermV>::empty() + term->KSet_elements =~= term->KSet_elements);
    }
}

/// Of the elements of a set it matters only which they are.
pub proof fn lemma_set_same(
    definition: CollectionDefinitionV,
    left: Seq<TermV>,
    right: Seq<TermV>,
    rest: Option<Box<TermV>>,
)
    requires
        same_items(left, right),
    ensures
        set_term(definition, left, rest) == set_term(definition, right, rest),
{
    reveal(set_term);
    law_sorted_is_canonical::<Term>(left, right);
    lemma_sorted_empty::<Term>(left);
    lemma_sorted_empty::<Term>(right);
    if rest is Some && *rest->0 is KSet {
        let more = (*rest->0)->KSet_elements;
        assert forall|item: TermV| #[trigger] (left + more).contains(item) <==> (right
            + more).contains(item) by {
            lemma_joined_contains(left, more, item);
            lemma_joined_contains(right, more, item);
            assert(left.contains(item) <==> right.contains(item));
        }
        law_sorted_is_canonical::<Term>(left + more, right + more);
        lemma_sorted_empty::<Term>(left + more);
        lemma_sorted_empty::<Term>(right + more);
    }
}

/// A set in a set is one set.
pub proof fn lemma_set_merged(
    definition: CollectionDefinitionV,
    before: Seq<TermV>,
    elements: Seq<TermV>,
    rest: Option<Box<TermV>>,
)
    requires
        rest_normal(rest),
    ensures
        set_term(definition, before, Some(Box::new(set_term(definition, elements, rest)))) == set_term(
            definition,
            before + elements,
            rest,
        ),
{
    reveal(set_term);
    lemma_sorted_joined::<Term>(before, elements);
    lemma_sorted_empty::<Term>(elements);
    if let Some(inner) = rest {
        if *inner is KSet {
            lemma_set_rest(*inner);
            let more = (*inner)->KSet_elements;
            assert(before + (elements + more) =~= before + elements + more);
            lemma_sorted_joined::<Term>(before, elements + more);
            lemma_sorted_empty::<Term>(elements + more);
        }
        if elements.len() == 0 {
            assert(before + elements =~= before);
        }
    }
}

/// A set of parts in normal form is in normal form.
pub proof fn lemma_set_normal(
    definition: CollectionDefinitionV,
    elements: Seq<TermV>,
    rest: Option<Box<TermV>>,
)
    requires
        all_normal(elements),
        rest_normal(rest),
    ensures
        normal(set_term(definition, elements, rest)),
{
    let term = set_term(definition, elements, rest);
    reveal(set_term);
    lemma_sorted_empty::<Term>(elements);
    let mut held = elements;
    if let Some(inner) = rest {
        if *inner is KSet {
            lemma_set_rest(*inner);
            let more = (*inner)->KSet_elements;
            lemma_sorted_empty::<Term>(elements + more);
            if (*inner)->KSet_definition == definition {
                held = elements + more;
            }
        }
    }
    if term is KSet && !(rest is Some && *rest->0 == term) {
        let all = children(term);
        lemma_set_children(term);
        let own = term->KSet_elements;
        assert(own == sorted::<Term>(held));
        assert(all_normal(held));
        assert forall|i: int| 0 <= i < own.len() implies normal(#[trigger] own[i]) by {
            assert(held.contains(own[i]));
        }
        assert(rest_normal(term->KSet_rest));
        assert(with_children(term, all) == term);
        assert(all_normal(all));
        lemma_all_children_normal(term, 0);
    }
}

pub proof fn lemma_set_replaced(term: TermV, substitution: SubstitutionV)
    requires
        term is KSet,
    ensures
        substituted(term, substitution) == set_term(
            term->KSet_definition,
            all_replaced(term->KSet_elements, substitution),
            rest_replaced(term->KSet_rest, substitution),
        ),
{
    reveal(children);
    reveal(with_children);
    let elements = term->KSet_elements;
    let rest = term->KSet_rest;
    let all = children(term);
    let kids = substituted_children(term, substitution);
    assert forall|i: int| 0 <= i < all.len() implies #[trigger] kids[i] == substituted(
        all[i],
        substitution,
    ) by {
        assert(kids[i] == substituted_child(term, i, substitution));
    }
    assert(kids.take(elements.len() as int) =~= all_replaced(elements, substitution));
    if rest is Some {
        assert(all[elements.len() as int] == *rest->0);
    }
}

proof fn lemma_set_items_replaced(
    left: Seq<TermV>,
    right: Seq<TermV>,
    substitution: SubstitutionV,
)
    requires
        same_items(left, right),
    ensures
        same_items(all_replaced(left, substitution), all_replaced(right, substitution)),
{
    assert forall|item: TermV| #[trigger]
        all_replaced(left, substitution).contains(item) <==> all_replaced(
        right,
        substitution,
    ).contains(item) by {
        lemma_set_item_replaced(left, right, substitution, item);
        lemma_set_item_replaced(right, left, substitution, item);
    }
}

proof fn lemma_set_item_replaced(
    left: Seq<TermV>,
    right: Seq<TermV>,
    substitution: SubstitutionV,
    item: TermV,
)
    requires
        same_items(left, right),
    ensures
        all_replaced(left, substitution).contains(item) ==> all_replaced(right, substitution).contains(item),
{
    let done = all_replaced(left, substitution);
    if done.contains(item) {
        let i: int = choose|i: int| 0 <= i < done.len() && done[i] == item;
        assert(left.contains(left[i]));
        assert(right.contains(left[i]));
        let j: int = choose|j: int| 0 <= j < right.len() && right[j] == left[i];
        assert(all_replaced(right, substitution)[j] == item);
    }
}

/// A substitution in a set is one in its parts.
pub proof fn lemma_set_substituted(
    definition: CollectionDefinitionV,
    elements: Seq<TermV>,
    rest: Option<Box<TermV>>,
    substitution: SubstitutionV,
)
    requires
        rest_normal(rest),
        values_normal(substitution),
    ensures
        substituted(set_term(definition, elements, rest), substitution) == set_term(
            definition,
            all_replaced(elements, substitution),
            rest_replaced(rest, substitution),
        ),
{
    let term = set_term(definition, elements, rest);
    let first = all_replaced(elements, substitution);
    reveal(set_term);
    lemma_sorted_empty::<Term>(elements);
    law_sorted::<Term>(elements);
    lemma_set_items_replaced(sorted::<Term>(elements), elements, substitution);
    if let Some(inner) = rest {
        law_substituted_is_normal(*inner, substitution);
        if *inner is KSet && (*inner)->KSet_definition == definition {
            lemma_set_rest(*inner);
            let more = (*inner)->KSet_elements;
            let deeper = (*inner)->KSet_rest;
            let held = elements + more;
            lemma_set_replaced(*inner, substitution);
            lemma_set_replaced(term, substitution);
            if deeper is Some {
                law_substituted_is_normal(*deeper->0, substitution);
            }
            lemma_set_merged(
                definition,
                first,
                all_replaced(more, substitution),
                rest_replaced(deeper, substitution),
            );
            assert(all_replaced(held, substitution) =~= first + all_replaced(more, substitution));
            law_sorted::<Term>(held);
            lemma_set_items_replaced(sorted::<Term>(held), held, substitution);
            lemma_set_same(
                definition,
                all_replaced(sorted::<Term>(held), substitution),
                all_replaced(held, substitution),
                rest_replaced(deeper, substitution),
            );
        } else if elements.len() == 0 {
            assert(first =~= Seq::empty());
            lemma_set_alone(definition, substituted(*inner, substitution));
        } else {
            lemma_set_replaced(term, substitution);
            lemma_set_same(
                definition,
                all_replaced(sorted::<Term>(elements), substitution),
                first,
                rest_replaced(rest, substitution),
            );
        }
    } else {
        lemma_set_replaced(term, substitution);
        lemma_set_same(
            definition,
            all_replaced(sorted::<Term>(elements), substitution),
            first,
            None,
        );
    }
}

// ---------------------------------------------------------------------------------------------
// Maps
// ---------------------------------------------------------------------------------------------
pub proof fn lemma_map_children(term: TermV)
    requires
        term is KMap,
    ensures
        children(term) == flat_entries(term->KMap_entries) + rest_seq(term->KMap_rest),
        with_children(term, children(term)) == map_term(
            term->KMap_definition,
            term->KMap_entries,
            term->KMap_rest,
        ),
{
    reveal(children);
    reveal(with_children);
    let entries = term->KMap_entries;
    let rest = term->KMap_rest;
    let all = children(term);
    assert(paired(all, entries.len()) =~= entries);
    if rest is Some {
        assert(all[2 * entries.len() as int] == *rest->0);
    }
}

/// The rest of a map in normal form is no map of the same kind, and does not stand alone.
pub proof fn lemma_map_rest(term: TermV)
    requires
        term is KMap,
        normal(term),
    ensures
        map_term(term->KMap_definition, term->KMap_entries, term->KMap_rest) == term,
        sorted::<(Term, Term)>(term->KMap_entries) == term->KMap_entries,
        term->KMap_rest is Some ==> term->KMap_entries.len() > 0,
        term->KMap_rest is Some && *term->KMap_rest->0 is KMap
            ==> (*term->KMap_rest->0)->KMap_definition != term->KMap_definition,
        rest_normal(term->KMap_rest),
        entries_normal(term->KMap_entries),
{
    lemma_map_children(term);
    lemma_children_normal(term);
    reveal(map_term);
    let entries = term->KMap_entries;
    let rest = term->KMap_rest;
    let all = children(term);
    assert forall|i: int| 0 <= i < entries.len() implies normal((#[trigger] entries[i]).0)
        && normal(entries[i].1) by {
        assert(all[2 * i] == entries[i].0);
        assert(all[2 * i + 1] == entries[i].1);
    }
    lemma_sorted_empty::<(Term, Term)>(entries);
    if let Some(inner) = rest {
        if *inner is KMap {
            lemma_sorted_empty::<(Term, Term)>(entries + (*inner)->KMap_entries);
        }
    }
    if let Some(inner) = rest {
        assert(all[2 * entries.len() as int] == *inner);
        lemma_child_smaller(term, 2 * entries.len() as int);
        if *inner is KMap && (*inner)->KMap_rest is Some {
            let deeper = (*inner)->KMap_rest;
            let entries = (*inner)->KMap_entries;
            lemma_map_children(*inner);
            assert(children(*inner)[2 * entries.len() as int] == *deeper->0);
            lemma_child_smaller(*inner, 2 * entries.len() as int);
            assert(*deeper->0 != *inner);
            assert(*deeper->0 != term);
        }
    }
}

/// A map without entries of its own is its rest.
pub proof fn lemma_map_alone(definition: CollectionDefinitionV, term: TermV)
    requires
        normal(term),
    ensures
        map_term(definition, Seq::empty(), Some(Box::new(term))) == term,
{
    reveal(map_term);
    if term is KMap {
        lemma_map_rest(term);
        assert(Seq::<(TermV, TermV)>::empty() + term->KMap_entries =~= term->KMap_entries);
    }
}

/// Of the entries of a map it matters only which they are.
pub proof fn lemma_map_same(
    definition: CollectionDefinitionV,
    left: Seq<(TermV, TermV)>,
    right: Seq<(TermV, TermV)>,
    rest: Option<Box<TermV>>,
)
    requires
        same_items(left, right),
    ensures
        map_term(definition, left, rest) == map_term(definition, right, rest),
{
    reveal(map_term);
    law_sorted_is_canonical::<(Term, Term)>(left, right);
    lemma_sorted_empty::<(Term, Term)>(left);
    lemma_sorted_empty::<(Term, Term)>(right);
    if rest is Some && *rest->0 is KMap {
        let more = (*rest->0)->KMap_entries;
        assert forall|item: (TermV, TermV)| #[trigger] (left + more).contains(item) <==> (right
            + more).contains(item) by {
            lemma_joined_contains(left, more, item);
            lemma_joined_contains(right, more, item);
            assert(left.contains(item) <==> right.contains(item));
        }
        law_sorted_is_canonical::<(Term, Term)>(left + more, right + more);
        lemma_sorted_empty::<(Term, Term)>(left + more);
        lemma_sorted_empty::<(Term, Term)>(right + more);
    }
}

/// A map in a map is one map.
pub proof fn lemma_map_merged(
    definition: CollectionDefinitionV,
    before: Seq<(TermV, TermV)>,
    entries: Seq<(TermV, TermV)>,
    rest: Option<Box<TermV>>,
)
    requires
        rest_normal(rest),
    ensures
        map_term(definition, before, Some(Box::new(map_term(definition, entries, rest)))) == map_term(
            definition,
            before + entries,
            rest,
        ),
{
    reveal(map_term);
    lemma_sorted_joined::<(Term, Term)>(before, entries);
    lemma_sorted_empty::<(Term, Term)>(entries);
    if let Some(inner) = rest {
        if *inner is KMap {
            lemma_map_rest(*inner);
            let more = (*inner)->KMap_entries;
            assert(before + (entries + more) =~= before + entries + more);
            lemma_sorted_joined::<(Term, Term)>(before, entries + more);
            lemma_sorted_empty::<(Term, Term)>(entries + more);
        }
        if entries.len() == 0 {
            assert(before + entries =~= before);
        }
    }
}

/// A map of parts in normal form is in normal form.
pub proof fn lemma_map_normal(
    definition: CollectionDefinitionV,
    entries: Seq<(TermV, TermV)>,
    rest: Option<Box<TermV>>,
)
    requires
        entries_normal(entries),
        rest_normal(rest),
    ensures
        normal(map_term(definition, entries, rest)),
{
    let term = map_term(definition, entries, rest);
    reveal(map_term);
    lemma_sorted_empty::<(Term, Term)>(entries);
    let mut held = entries;
    if let Some(inner) = rest {
        if *inner is KMap {
            lemma_map_rest(*inner);
            let more = (*inner)->KMap_entries;
            lemma_sorted_empty::<(Term, Term)>(entries + more);
            if (*inner)->KMap_definition == definition {
                held = entries + more;
            }
        }
    }
    if term is KMap && !(rest is Some && *rest->0 == term) {
        let all = children(term);
        lemma_map_children(term);
        let own = term->KMap_entries;
        assert(own == sorted::<(Term, Term)>(held));
        assert(entries_normal(held));
        assert forall|i: int| 0 <= i < own.len() implies normal((#[trigger] own[i]).0) && normal(
            own[i].1,
        ) by {
            assert(held.contains(own[i]));
        }
        assert(rest_normal(term->KMap_rest));
        assert(with_children(term, all) == term);
        assert forall|i: int| 0 <= i < all.len() implies normal(#[trigger] all[i]) by {
            if i < 2 * own.len() {
                assert(normal(own[i / 2].0) && normal(own[i / 2].1));
            }
        }
        assert(all_normal(all));
        lemma_all_children_normal(term, 0);
    }
}

pub proof fn lemma_map_replaced(term: TermV, substitution: SubstitutionV)
    requires
        term is KMap,
    ensures
        substituted(term, substitution) == map_term(
            term->KMap_definition,
            entries_replaced(term->KMap_entries, substitution),
            rest_replaced(term->KMap_rest, substitution),
        ),
{
    reveal(children);
    reveal(with_children);
    let entries = term->KMap_entries;
    let rest = term->KMap_rest;
    let all = children(term);
    let kids = substituted_children(term, substitution);
    assert forall|i: int| 0 <= i < all.len() implies #[trigger] kids[i] == substituted(
        all[i],
        substitution,
    ) by {
        assert(kids[i] == substituted_child(term, i, substitution));
    }
    assert forall|i: int| 0 <= i < entries.len() implies #[trigger] paired(kids, entries.len())[i]
        == entries_replaced(entries, substitution)[i] by {
        assert(all[2 * i] == entries[i].0);
        assert(all[2 * i + 1] == entries[i].1);
    }
    assert(paired(kids, entries.len()) =~= entries_replaced(entries, substitution));
    if rest is Some {
        assert(all[2 * entries.len() as int] == *rest->0);
    }
}

proof fn lemma_map_items_replaced(
    left: Seq<(TermV, TermV)>,
    right: Seq<(TermV, TermV)>,
    substitution: SubstitutionV,
)
    requires
        same_items(left, right),
    ensures
        same_items(entries_replaced(left, substitution), entries_replaced(right, substitution)),
{
    assert forall|item: (TermV, TermV)| #[trigger]
        entries_replaced(left, substitution).contains(item) <==> entries_replaced(
        right,
        substitution,
    ).contains(item) by {
        lemma_map_item_replaced(left, right, substitution, item);
        lemma_map_item_replaced(right, left, substitution, item);
    }
}

proof fn lemma_map_item_replaced(
    left: Seq<(TermV, TermV)>,
    right: Seq<(TermV, TermV)>,
    substitution: SubstitutionV,
    item: (TermV, TermV),
)
    requires
        same_items(left, right),
    ensures
        entries_replaced(left, substitution).contains(item) ==> entries_replaced(right, substitution).contains(item),
{
    let done = entries_replaced(left, substitution);
    if done.contains(item) {
        let i: int = choose|i: int| 0 <= i < done.len() && done[i] == item;
        assert(left.contains(left[i]));
        assert(right.contains(left[i]));
        let j: int = choose|j: int| 0 <= j < right.len() && right[j] == left[i];
        assert(entries_replaced(right, substitution)[j] == item);
    }
}

/// A substitution in a map is one in its parts.
pub proof fn lemma_map_substituted(
    definition: CollectionDefinitionV,
    entries: Seq<(TermV, TermV)>,
    rest: Option<Box<TermV>>,
    substitution: SubstitutionV,
)
    requires
        rest_normal(rest),
        values_normal(substitution),
    ensures
        substituted(map_term(definition, entries, rest), substitution) == map_term(
            definition,
            entries_replaced(entries, substitution),
            rest_replaced(rest, substitution),
        ),
{
    let term = map_term(definition, entries, rest);
    let first = entries_replaced(entries, substitution);
    reveal(map_term);
    lemma_sorted_empty::<(Term, Term)>(entries);
    law_sorted::<(Term, Term)>(entries);
    lemma_map_items_replaced(sorted::<(Term, Term)>(entries), entries, substitution);
    if let Some(inner) = rest {
        law_substituted_is_normal(*inner, substitution);
        if *inner is KMap && (*inner)->KMap_definition == definition {
            lemma_map_rest(*inner);
            let more = (*inner)->KMap_entries;
            let deeper = (*inner)->KMap_rest;
            let held = entries + more;
            lemma_map_replaced(*inner, substitution);
            lemma_map_replaced(term, substitution);
            if deeper is Some {
                law_substituted_is_normal(*deeper->0, substitution);
            }
            lemma_map_merged(
                definition,
                first,
                entries_replaced(more, substitution),
                rest_replaced(deeper, substitution),
            );
            assert(entries_replaced(held, substitution) =~= first + entries_replaced(more, substitution));
            law_sorted::<(Term, Term)>(held);
            lemma_map_items_replaced(sorted::<(Term, Term)>(held), held, substitution);
            lemma_map_same(
                definition,
                entries_replaced(sorted::<(Term, Term)>(held), substitution),
                entries_replaced(held, substitution),
                rest_replaced(deeper, substitution),
            );
        } else if entries.len() == 0 {
            assert(first =~= Seq::empty());
            lemma_map_alone(definition, substituted(*inner, substitution));
        } else {
            lemma_map_replaced(term, substitution);
            lemma_map_same(
                definition,
                entries_replaced(sorted::<(Term, Term)>(entries), substitution),
                first,
                rest_replaced(rest, substitution),
            );
        }
    } else {
        lemma_map_replaced(term, substitution);
        lemma_map_same(
            definition,
            entries_replaced(sorted::<(Term, Term)>(entries), substitution),
            first,
            None,
        );
    }
}

// ---------------------------------------------------------------------------------------------
// Substitutions
// ---------------------------------------------------------------------------------------------
/// A term under a substitution that gives terms in normal form is in normal form.
pub proof fn law_substituted_is_normal(term: TermV, substitution: SubstitutionV)
    requires
        values_normal(substitution),
    ensures
        normal(substituted(term, substitution)),
    decreases term,
{
    let kids = substituted_children(term, substitution);
    assert forall|i: int| 0 <= i < kids.len() implies normal(#[trigger] kids[i]) by {
        lemma_child_smaller(term, i);
        assert(kids[i] == substituted_child(term, i, substitution));
        law_substituted_is_normal(children(term)[i], substitution);
    }
    match term {
        TermV::Variable(variable) => {
            lemma_value_normal(substitution, variable, 0);
            reveal(children);
            reveal(with_children);
            assert(normal(term));
        },
        TermV::KList { definition, heads, rest, tails } => {
            lemma_list_children(term);
            let all = children(term);
            lemma_list_replaced(term, substitution);
            assert forall|i: int| 0 <= i < heads.len() implies normal(
                #[trigger] all_replaced(heads, substitution)[i],
            ) by {
                assert(all[i] == heads[i]);
                assert(normal(kids[i]));
                assert(kids[i] == substituted_child(term, i, substitution));
            }
            let behind = (heads.len() + rest_seq(rest).len()) as int;
            assert forall|i: int| 0 <= i < tails.len() implies normal(
                #[trigger] all_replaced(tails, substitution)[i],
            ) by {
                assert(all[behind + i] == tails[i]);
                assert(normal(kids[behind + i]));
                assert(kids[behind + i] == substituted_child(term, behind + i, substitution));
            }
            if rest is Some {
                let i = heads.len() as int;
                assert(all[i] == *rest->0);
                assert(normal(kids[i]));
                assert(kids[i] == substituted_child(term, i, substitution));
            }
            lemma_list_normal(
                definition,
                all_replaced(heads, substitution),
                rest_replaced(rest, substitution),
                all_replaced(tails, substitution),
            );
        },
        TermV::KSet { definition, elements, rest } => {
            lemma_set_children(term);
            let all = children(term);
            lemma_set_replaced(term, substitution);
            assert forall|i: int| 0 <= i < elements.len() implies normal(
                #[trigger] all_replaced(elements, substitution)[i],
            ) by {
                assert(all[i] == elements[i]);
                assert(normal(kids[i]));
                assert(kids[i] == substituted_child(term, i, substitution));
            }
            if rest is Some {
                let i = elements.len() as int;
                assert(all[i] == *rest->0);
                assert(normal(kids[i]));
                assert(kids[i] == substituted_child(term, i, substitution));
            }
            lemma_set_normal(
                definition,
                all_replaced(elements, substitution),
                rest_replaced(rest, substitution),
            );
        },
        TermV::KMap { definition, entries, rest } => {
            lemma_map_children(term);
            let all = children(term);
            lemma_map_replaced(term, substitution);
            let done = entries_replaced(entries, substitution);
            assert forall|i: int| 0 <= i < entries.len() implies normal((#[trigger] done[i]).0)
                && normal(done[i].1) by {
                assert(all[2 * i] == entries[i].0);
                assert(all[2 * i + 1] == entries[i].1);
                assert(normal(kids[2 * i]));
                assert(normal(kids[2 * i + 1]));
                assert(kids[2 * i] == substituted_child(term, 2 * i, substitution));
                assert(kids[2 * i + 1] == substituted_child(term, 2 * i + 1, substitution));
            }
            if rest is Some {
                let i = 2 * entries.len() as int;
                assert(all[i] == *rest->0);
                assert(normal(kids[i]));
                assert(kids[i] == substituted_child(term, i, substitution));
            }
            lemma_map_normal(definition, done, rest_replaced(rest, substitution));
        },
        _ => {
            reveal(children);
            reveal(with_children);
            let done = substituted(term, substitution);
            assert(children(done) =~= kids);
            lemma_all_children_normal(done, 0);
            assert(with_children(done, children(done)) == done);
        },
    }
}

proof fn lemma_value_normal(substitution: SubstitutionV, variable: VariableV, from: int)
    requires
        values_normal(substitution),
        0 <= from,
    ensures
        match assoc_from(substitution, variable, from) {
            Some(value) => normal(value),
            None => true,
        },
    decreases substitution.len() - from,
{
    if from < substitution.len() {
        assert(normal(substitution[from].1));
        lemma_value_normal(substitution, variable, from + 1);
    }
}

/// Whether one substitution does to a variable what two others do one after the other.
pub open spec fn does_both(
    both: SubstitutionV,
    new: SubstitutionV,
    old: SubstitutionV,
    variable: VariableV,
) -> bool {
    substituted(TermV::Variable(variable), both) == substituted(
        substituted(TermV::Variable(variable), old),
        new,
    )
}

/// A substitution that does to every variable what two others do one after the other does so to
/// every term.
pub proof fn lemma_substituted_twice(
    term: TermV,
    both: SubstitutionV,
    new: SubstitutionV,
    old: SubstitutionV,
)
    requires
        values_normal(new),
        values_normal(old),
        forall|variable: VariableV| #[trigger] does_both(both, new, old, variable),
    ensures
        substituted(term, both) == substituted(substituted(term, old), new),
    decreases term,
{
    let all = children(term);
    assert forall|i: int| 0 <= i < all.len() implies substituted(#[trigger] all[i], both)
        == substituted(substituted(all[i], old), new) by {
        lemma_child_smaller(term, i);
        lemma_substituted_twice(all[i], both, new, old);
    }
    match term {
        TermV::Variable(variable) => {
            assert(does_both(both, new, old, variable));
        },
        TermV::KList { definition, heads, rest, tails } => {
            lemma_list_children(term);
            lemma_list_replaced(term, both);
            lemma_list_replaced(term, old);
            let behind = (heads.len() + rest_seq(rest).len()) as int;
            assert forall|i: int| 0 <= i < heads.len() implies all_replaced(heads, both)[i]
                == all_replaced(all_replaced(heads, old), new)[i] by {
                assert(all[i] == heads[i]);
            }
            assert(all_replaced(heads, both) =~= all_replaced(all_replaced(heads, old), new));
            assert forall|i: int| 0 <= i < tails.len() implies all_replaced(tails, both)[i]
                == all_replaced(all_replaced(tails, old), new)[i] by {
                assert(all[behind + i] == tails[i]);
            }
            assert(all_replaced(tails, both) =~= all_replaced(all_replaced(tails, old), new));
            if rest is Some {
                assert(all[heads.len() as int] == *rest->0);
                law_substituted_is_normal(*rest->0, old);
            }
            lemma_list_substituted(
                definition,
                all_replaced(heads, old),
                rest_replaced(rest, old),
                all_replaced(tails, old),
                new,
            );
        },
        TermV::KSet { definition, elements, rest } => {
            lemma_set_children(term);
            lemma_set_replaced(term, both);
            lemma_set_replaced(term, old);
            assert forall|i: int| 0 <= i < elements.len() implies all_replaced(elements, both)[i]
                == all_replaced(all_replaced(elements, old), new)[i] by {
                assert(all[i] == elements[i]);
            }
            assert(all_replaced(elements, both) =~= all_replaced(
                all_replaced(elements, old),
                new,
            ));
            if rest is Some {
                assert(all[elements.len() as int] == *rest->0);
                law_substituted_is_normal(*rest->0, old);
            }
            lemma_set_substituted(
                definition,
                all_replaced(elements, old),
                rest_replaced(rest, old),
                new,
            );
        },
        TermV::KMap { definition, entries, rest } => {
            lemma_map_children(term);
            lemma_map_replaced(term, both);
            lemma_map_replaced(term, old);
            assert forall|i: int| 0 <= i < entries.len() implies entries_replaced(entries, both)[i]
                == entries_replaced(entries_replaced(entries, old), new)[i] by {
                assert(all[2 * i] == entries[i].0);
                assert(all[2 * i + 1] == entries[i].1);
            }
            assert(entries_replaced(entries, both) =~= entries_replaced(
                entries_replaced(entries, old),
                new,
            ));
            if rest is Some {
                assert(all[2 * entries.len() as int] == *rest->0);
                law_substituted_is_normal(*rest->0, old);
            }
            lemma_map_substituted(
                definition,
                entries_replaced(entries, old),
                rest_replaced(rest, old),
                new,
            );
        },
        _ => {
            reveal(children);
            reveal(with_children);
            let once = substituted(term, old);
            assert(children(once) =~= substituted_children(term, old));
            let left = substituted_children(term, both);
            let right = substituted_children(once, new);
            assert forall|i: int| 0 <= i < all.len() implies left[i] == right[i] by {
                assert(left[i] == substituted_child(term, i, both));
                assert(right[i] == substituted_child(once, i, new));
                assert(children(once)[i] == substituted_child(term, i, old));
                assert(substituted(all[i], both) == substituted(substituted(all[i], old), new));
            }
            assert(left =~= right);
        },
    }
}

/// A composition does in every term, collections among them, what one substitution behind the
/// other does, where both give terms in normal form: a collection that the first leaves and the
/// second rebuilds is the one that the composition builds at once.
pub proof fn law_composed_collections(term: TermV, new: SubstitutionV, old: SubstitutionV)
    requires
        binds_once(new),
        values_normal(new),
        values_normal(old),
    ensures
        substituted(term, composed(new, old)) == substituted(substituted(term, old), new),
{
    let both = composed(new, old);
    assert forall|variable: VariableV| #[trigger] does_both(both, new, old, variable) by {
        lemma_values(new, old, variable, 0);
        lemma_composed_from(new, old, composed_values(new, old), variable, 0);
    }
    lemma_substituted_twice(term, both, new, old);
}

} // verus!
