//! What normal forms keep of a predicate: its value, whatever its atoms mean.

use vstd::prelude::*;
use crate::construct::constructor_like;
use crate::definition::BackendDefinition;
use crate::index::{push_unique, unique_from};
use crate::kernel::Kernel;
use crate::normalize::{
    aligned, all_negated, all_normalized, any_normalized, conjoined_part, conjunction_of,
    disjoined_part, disjunction_of, equality_hook, equality_operands, hooked_equality,
    hooked_meaning, hooked_normalized, negated, normalized, sequence_item,
};
use crate::ops::sort_of;
use crate::predicate::PredicateV;
use crate::sorts::SortGraphV;
use crate::term::{simple_sort, TermV};
use crate::truth::{
    all_truth, any_truth, bool_literal, bool_value_of, both, conjunction_truth, either, truth_of,
    Truth,
};

verus! {

/// The meaning of predicates that are no connectives.
pub type Meaning = spec_fn(PredicateV) -> bool;

/// Whether a meaning takes literals, equalities of the same or of different values, the definedness
/// of values, and quantifiers over what is decided, for what they are.
pub open spec fn admissible(meaning: Meaning) -> bool {
    forall|atom: PredicateV| #[trigger] admits(meaning, atom)
}

/// Whether a meaning takes an atom for what it is.
pub open spec fn admits(meaning: Meaning, atom: PredicateV) -> bool {
    match atom {
        PredicateV::Term(term) => {
            &&& term == bool_literal(true) ==> meaning(atom)
            &&& term == bool_literal(false) && term != bool_literal(true) ==> !meaning(atom)
        },
        PredicateV::Equals(left, right) => {
            &&& left == right ==> meaning(atom)
            &&& left != right && constructor_like(left) && constructor_like(right) ==> !meaning(
                atom,
            )
        },
        PredicateV::Ceil(term) => constructor_like(term) ==> meaning(atom),
        PredicateV::Exists(_, inner) | PredicateV::Forall(_, inner) => {
            &&& truth_of(*inner) is True ==> meaning(atom)
            &&& truth_of(*inner) is False ==> !meaning(atom)
        },
        _ => true,
    }
}

/// The value of a predicate, where `meaning` says that of what is no connective.
pub open spec fn value(predicate: PredicateV, meaning: Meaning) -> bool
    decreases predicate, 0int,
{
    match predicate {
        PredicateV::True => true,
        PredicateV::False => false,
        PredicateV::Not(inner) => !value(*inner, meaning),
        PredicateV::And(inner) => all_hold(inner, meaning, 0),
        PredicateV::Or(inner) => !none_holds(inner, meaning, 0),
        PredicateV::Implies(left, right) => value(*left, meaning) ==> value(*right, meaning),
        PredicateV::Iff(left, right) => value(*left, meaning) == value(*right, meaning),
        _ => meaning(predicate),
    }
}

/// Whether all predicates from `from` on hold.
pub open spec fn all_hold(predicates: Seq<PredicateV>, meaning: Meaning, from: int) -> bool
    decreases predicates, predicates.len() - from,
{
    if 0 <= from < predicates.len() {
        value(predicates[from], meaning) && all_hold(predicates, meaning, from + 1)
    } else {
        true
    }
}

/// Whether none of the predicates from `from` on holds.
pub open spec fn none_holds(predicates: Seq<PredicateV>, meaning: Meaning, from: int) -> bool
    decreases predicates, predicates.len() - from,
{
    if 0 <= from < predicates.len() {
        !value(predicates[from], meaning) && none_holds(predicates, meaning, from + 1)
    } else {
        true
    }
}

pub proof fn lemma_all_hold(predicates: Seq<PredicateV>, meaning: Meaning, from: int)
    requires
        0 <= from,
    ensures
        all_hold(predicates, meaning, from) <==> forall|i: int|
            from <= i < predicates.len() ==> value(#[trigger] predicates[i], meaning),
    decreases predicates.len() - from,
{
    if from < predicates.len() {
        lemma_all_hold(predicates, meaning, from + 1);
        if all_hold(predicates, meaning, from) {
            assert forall|i: int| from <= i < predicates.len() implies value(
                #[trigger] predicates[i],
                meaning,
            ) by {}
        } else if value(predicates[from], meaning) {
            let i: int = choose|i: int|
                from + 1 <= i < predicates.len() && !value(#[trigger] predicates[i], meaning);
            assert(!value(predicates[i], meaning));
        }
    }
}

pub proof fn lemma_none_holds(predicates: Seq<PredicateV>, meaning: Meaning, from: int)
    requires
        0 <= from,
    ensures
        none_holds(predicates, meaning, from) <==> forall|i: int|
            from <= i < predicates.len() ==> !value(#[trigger] predicates[i], meaning),
    decreases predicates.len() - from,
{
    if from < predicates.len() {
        lemma_none_holds(predicates, meaning, from + 1);
        if none_holds(predicates, meaning, from) {
            assert forall|i: int| from <= i < predicates.len() implies !value(
                #[trigger] predicates[i],
                meaning,
            ) by {}
        } else if !value(predicates[from], meaning) {
            let i: int = choose|i: int|
                from + 1 <= i < predicates.len() && value(#[trigger] predicates[i], meaning);
            assert(value(predicates[i], meaning));
        }
    }
}

// ---------------------------------------------------------------------------------------------
// Truth
// ---------------------------------------------------------------------------------------------
/// Whether what is known agrees with a value.
pub open spec fn agrees(truth: Truth, held: bool) -> bool {
    match truth {
        Truth::True => held,
        Truth::False => !held,
        Truth::Unknown => true,
    }
}

/// What is known of a predicate agrees with its value.
pub proof fn law_truth_is_sound(predicate: PredicateV, meaning: Meaning)
    requires
        admissible(meaning),
    ensures
        agrees(truth_of(predicate), value(predicate, meaning)),
    decreases predicate, 0int,
{
    match predicate {
        PredicateV::Not(inner) => {
            law_truth_is_sound(*inner, meaning);
        },
        PredicateV::And(inner) => {
            lemma_all_agree(inner, meaning, Truth::True, true, 0);
        },
        PredicateV::Or(inner) => {
            lemma_none_agree(inner, meaning, Truth::False, true, 0);
        },
        PredicateV::Implies(left, right) => {
            law_truth_is_sound(*left, meaning);
            law_truth_is_sound(*right, meaning);
        },
        PredicateV::Iff(left, right) => {
            law_truth_is_sound(*left, meaning);
            law_truth_is_sound(*right, meaning);
        },
        _ => {
            assert(admits(meaning, predicate));
        },
    }
}

proof fn lemma_all_agree(
    predicates: Seq<PredicateV>,
    meaning: Meaning,
    truth: Truth,
    held: bool,
    from: int,
)
    requires
        admissible(meaning),
        0 <= from <= predicates.len(),
        agrees(truth, held),
    ensures
        agrees(all_truth(predicates, truth, from), held && all_hold(predicates, meaning, from)),
    decreases predicates, predicates.len() - from,
{
    if from < predicates.len() {
        law_truth_is_sound(predicates[from], meaning);
        lemma_all_agree(
            predicates,
            meaning,
            both(truth, truth_of(predicates[from])),
            held && value(predicates[from], meaning),
            from + 1,
        );
    }
}

proof fn lemma_none_agree(
    predicates: Seq<PredicateV>,
    meaning: Meaning,
    truth: Truth,
    refuted: bool,
    from: int,
)
    requires
        admissible(meaning),
        0 <= from <= predicates.len(),
        agrees(truth, !refuted),
    ensures
        agrees(
            any_truth(predicates, truth, from),
            !(refuted && none_holds(predicates, meaning, from)),
        ),
    decreases predicates, predicates.len() - from,
{
    if from < predicates.len() {
        law_truth_is_sound(predicates[from], meaning);
        lemma_none_agree(
            predicates,
            meaning,
            either(truth, truth_of(predicates[from])),
            refuted && !value(predicates[from], meaning),
            from + 1,
        );
    }
}

/// What is known of a conjunction agrees with the values of its parts.
pub proof fn law_conjunction_is_sound(predicates: Seq<PredicateV>, meaning: Meaning)
    requires
        admissible(meaning),
    ensures
        conjunction_truth(predicates) is True ==> forall|i: int|
            0 <= i < predicates.len() ==> value(#[trigger] predicates[i], meaning),
        conjunction_truth(predicates) is False ==> exists|i: int|
            0 <= i < predicates.len() && !value(#[trigger] predicates[i], meaning),
{
    lemma_all_agree(predicates, meaning, Truth::True, true, 0);
    lemma_all_hold(predicates, meaning, 0);
}

// ---------------------------------------------------------------------------------------------
// Normal forms
// ---------------------------------------------------------------------------------------------
/// Whether all parts hold; a conjunction without parts to list is false.
spec fn parts_hold(parts: Option<Seq<PredicateV>>, meaning: Meaning) -> bool {
    match parts {
        None => false,
        Some(parts) => all_hold(parts, meaning, 0),
    }
}

/// Whether no part holds; a disjunction without parts to list is true.
spec fn no_part_holds(parts: Option<Seq<PredicateV>>, meaning: Meaning) -> bool {
    match parts {
        None => false,
        Some(parts) => none_holds(parts, meaning, 0),
    }
}

proof fn lemma_pushed(parts: Seq<PredicateV>, part: PredicateV, meaning: Meaning)
    ensures
        all_hold(push_unique(parts, part), meaning, 0) == (all_hold(parts, meaning, 0) && value(
            part,
            meaning,
        )),
{
    let all = push_unique(parts, part);
    lemma_all_hold(parts, meaning, 0);
    lemma_all_hold(all, meaning, 0);
    assert(forall|i: int| 0 <= i < parts.len() ==> all[i] == #[trigger] parts[i]);
    assert(all.contains(part)) by {
        if !parts.contains(part) {
            assert(all[parts.len() as int] == part);
        }
    }
    let at: int = choose|at: int| 0 <= at < all.len() && all[at] == part;
    if all_hold(all, meaning, 0) {
        assert(value(all[at], meaning));
        assert forall|i: int| 0 <= i < parts.len() implies value(#[trigger] parts[i], meaning) by {
            assert(all[i] == parts[i]);
        }
    } else {
        let i: int = choose|i: int| 0 <= i < all.len() && !value(#[trigger] all[i], meaning);
        if i < parts.len() {
            assert(!value(parts[i], meaning));
        }
    }
}

proof fn lemma_extended(
    parts: Seq<PredicateV>,
    added: Seq<PredicateV>,
    from: int,
    meaning: Meaning,
)
    requires
        0 <= from <= added.len(),
    ensures
        all_hold(unique_from(parts, added, from), meaning, 0) == (all_hold(parts, meaning, 0)
            && all_hold(added, meaning, from)),
    decreases added.len() - from,
{
    if from < added.len() {
        lemma_pushed(parts, added[from], meaning);
        lemma_extended(push_unique(parts, added[from]), added, from + 1, meaning);
    }
}

proof fn lemma_conjoined(parts: Option<Seq<PredicateV>>, part: PredicateV, meaning: Meaning)
    ensures
        parts_hold(conjoined_part(parts, part), meaning) == (parts_hold(parts, meaning) && value(
            part,
            meaning,
        )),
{
    match (parts, part) {
        (Some(parts), PredicateV::And(nested)) => {
            lemma_extended(parts, nested, 0, meaning);
        },
        (Some(parts), part) => {
            lemma_pushed(parts, part, meaning);
        },
        _ => {},
    }
}

proof fn lemma_joined(left: Seq<PredicateV>, right: Seq<PredicateV>, meaning: Meaning)
    ensures
        none_holds(left + right, meaning, 0) == (none_holds(left, meaning, 0) && none_holds(
            right,
            meaning,
            0,
        )),
{
    let all = left + right;
    lemma_none_holds(left, meaning, 0);
    lemma_none_holds(right, meaning, 0);
    lemma_none_holds(all, meaning, 0);
    if none_holds(all, meaning, 0) {
        assert forall|i: int| 0 <= i < left.len() implies !value(#[trigger] left[i], meaning) by {
            assert(all[i] == left[i]);
        }
        assert forall|i: int| 0 <= i < right.len() implies !value(
            #[trigger] right[i],
            meaning,
        ) by {
            assert(all[left.len() + i] == right[i]);
        }
    } else {
        let i: int = choose|i: int| 0 <= i < all.len() && value(#[trigger] all[i], meaning);
        if i < left.len() {
            assert(value(left[i], meaning));
        } else {
            assert(value(right[i - left.len()], meaning));
        }
    }
}

proof fn lemma_disjoined(parts: Option<Seq<PredicateV>>, part: PredicateV, meaning: Meaning)
    ensures
        no_part_holds(disjoined_part(parts, part), meaning) == (no_part_holds(parts, meaning)
            && !value(part, meaning)),
{
    match (parts, part) {
        (Some(parts), PredicateV::Or(nested)) => {
            lemma_joined(parts, nested, meaning);
        },
        (Some(parts), part) => {
            lemma_joined(parts, seq![part], meaning);
            lemma_none_holds(seq![part], meaning, 0);
            assert(seq![part][0] == part);
            assert(parts.push(part) =~= parts + seq![part]);
        },
        _ => {},
    }
}

proof fn lemma_conjunction_of(parts: Option<Seq<PredicateV>>, meaning: Meaning)
    ensures
        value(conjunction_of(parts), meaning) == parts_hold(parts, meaning),
{
    if let Some(parts) = parts {
        lemma_all_hold(parts, meaning, 0);
    }
}

proof fn lemma_disjunction_of(parts: Option<Seq<PredicateV>>, meaning: Meaning)
    ensures
        value(disjunction_of(parts), meaning) == !no_part_holds(parts, meaning),
{
    if let Some(parts) = parts {
        lemma_none_holds(parts, meaning, 0);
    }
}

/// The normal form of a predicate has the value of the predicate, and the normal form of its
/// negation has the other one.
pub proof fn law_normal_form_keeps_value(predicate: PredicateV, meaning: Meaning)
    requires
        admissible(meaning),
    ensures
        value(normalized(predicate), meaning) == value(predicate, meaning),
        value(negated(predicate), meaning) == !value(predicate, meaning),
    decreases predicate, 0int,
{
    law_truth_is_sound(predicate, meaning);
    match predicate {
        PredicateV::Not(inner) => {
            law_normal_form_keeps_value(*inner, meaning);
        },
        PredicateV::And(inner) => {
            lemma_all_normalized(inner, Some(Seq::empty()), 0, meaning);
            lemma_all_hold(Seq::empty(), meaning, 0);
            lemma_conjunction_of(all_normalized(inner, Some(Seq::empty()), 0), meaning);
        },
        PredicateV::Or(inner) => {
            lemma_all_hold(Seq::empty(), meaning, 0);
            lemma_none_holds(Seq::empty(), meaning, 0);
            lemma_any_normalized(inner, Some(Seq::empty()), 0, meaning);
            lemma_disjunction_of(any_normalized(inner, Some(Seq::empty()), 0), meaning);
            lemma_all_negated(inner, Some(Seq::empty()), 0, meaning);
            lemma_conjunction_of(all_negated(inner, Some(Seq::empty()), 0), meaning);
        },
        PredicateV::Implies(left, right) => {
            law_truth_is_sound(*left, meaning);
            law_truth_is_sound(*right, meaning);
            law_normal_form_keeps_value(*left, meaning);
        },
        PredicateV::Iff(left, right) => {
            law_truth_is_sound(*left, meaning);
            law_truth_is_sound(*right, meaning);
            law_normal_form_keeps_value(*left, meaning);
            law_normal_form_keeps_value(*right, meaning);
        },
        _ => {
            assert(admits(meaning, predicate));
        },
    }
}

proof fn lemma_all_normalized(
    predicates: Seq<PredicateV>,
    parts: Option<Seq<PredicateV>>,
    from: int,
    meaning: Meaning,
)
    requires
        admissible(meaning),
        0 <= from <= predicates.len(),
    ensures
        parts_hold(all_normalized(predicates, parts, from), meaning) == (parts_hold(parts, meaning)
            && all_hold(predicates, meaning, from)),
    decreases predicates, predicates.len() - from,
{
    if from < predicates.len() {
        let next = normalized(predicates[from]);
        law_normal_form_keeps_value(predicates[from], meaning);
        lemma_conjoined(parts, next, meaning);
        lemma_all_normalized(predicates, conjoined_part(parts, next), from + 1, meaning);
    }
}

proof fn lemma_any_normalized(
    predicates: Seq<PredicateV>,
    parts: Option<Seq<PredicateV>>,
    from: int,
    meaning: Meaning,
)
    requires
        admissible(meaning),
        0 <= from <= predicates.len(),
    ensures
        no_part_holds(any_normalized(predicates, parts, from), meaning) == (no_part_holds(
            parts,
            meaning,
        ) && none_holds(predicates, meaning, from)),
    decreases predicates, predicates.len() - from,
{
    if from < predicates.len() {
        let next = normalized(predicates[from]);
        law_normal_form_keeps_value(predicates[from], meaning);
        lemma_disjoined(parts, next, meaning);
        lemma_any_normalized(predicates, disjoined_part(parts, next), from + 1, meaning);
    }
}

proof fn lemma_all_negated(
    predicates: Seq<PredicateV>,
    parts: Option<Seq<PredicateV>>,
    from: int,
    meaning: Meaning,
)
    requires
        admissible(meaning),
        0 <= from <= predicates.len(),
    ensures
        parts_hold(all_negated(predicates, parts, from), meaning) == (parts_hold(parts, meaning)
            && none_holds(predicates, meaning, from)),
    decreases predicates, predicates.len() - from,
{
    if from < predicates.len() {
        let next = negated(predicates[from]);
        law_normal_form_keeps_value(predicates[from], meaning);
        lemma_conjoined(parts, next, meaning);
        lemma_all_negated(predicates, conjoined_part(parts, next), from + 1, meaning);
    }
}

// ---------------------------------------------------------------------------------------------
// Boolean functions
// ---------------------------------------------------------------------------------------------
/// Whether a term of sort Bool is `expected`.
pub open spec fn comes_out(meaning: Meaning, term: TermV, expected: bool) -> bool {
    meaning(PredicateV::Equals(term, bool_literal(expected)))
}

/// The items of two K sequences of one item each, both of the larger of their sorts.
pub open spec fn items_of(sorts: SortGraphV, left: TermV, right: TermV) -> Option<(TermV, TermV)> {
    match (sequence_item(left), sequence_item(right)) {
        (Some(left), Some(right)) => aligned(sorts, left, right),
        _ => None,
    }
}

/// Whether two terms are defined, and are equal or differ.
pub open spec fn compared<K: Kernel>(
    definition: BackendDefinition<K>,
    meaning: Meaning,
    operands: (TermV, TermV),
    equal: bool,
) -> bool {
    &&& all_hold(definition.kernel.ceil(operands.0), meaning, 0)
    &&& all_hold(definition.kernel.ceil(operands.1), meaning, 0)
    &&& meaning(PredicateV::Equals(operands.0, operands.1)) == equal
}

/// Whether a meaning takes the Boolean functions and the equality functions for what they are.
#[verifier::opaque]
pub open spec fn reads<K: Kernel>(
    definition: BackendDefinition<K>,
    meaning: Meaning,
    term: TermV,
    expected: bool,
) -> bool {
    let sorts = definition.sort_graph@;
    let hook = term->Application_symbol.attributes.hook;
    let arguments = term->Application_arguments;
    let truly = comes_out(meaning, term, expected);
    &&& meaning(PredicateV::Term(term)) == comes_out(meaning, term, true)
    &&& meaning(PredicateV::Equals(bool_literal(expected), term)) == truly
    &&& if term is Application && hook == Some("BOOL.and"@) && arguments.len() == 2 {
        truly == if expected {
            comes_out(meaning, arguments[0], true) && comes_out(meaning, arguments[1], true)
        } else {
            comes_out(meaning, arguments[0], false) || comes_out(meaning, arguments[1], false)
        }
    } else if term is Application && hook == Some("BOOL.or"@) && arguments.len() == 2 {
        truly == if expected {
            comes_out(meaning, arguments[0], true) || comes_out(meaning, arguments[1], true)
        } else {
            comes_out(meaning, arguments[0], false) && comes_out(meaning, arguments[1], false)
        }
    } else if term is Application && hook == Some("BOOL.not"@) && arguments.len() == 1 {
        truly == comes_out(meaning, arguments[0], !expected)
    } else if term is Application && arguments.len() == 2 && (hook == Some("INT.eq"@) || hook
        == Some("INT.ne"@)) {
        truly == compared(
            definition,
            meaning,
            (arguments[0], arguments[1]),
            expected == (hook == Some("INT.eq"@)),
        )
    } else if term is Application && arguments.len() == 2 && (hook == Some("KEQUAL.eq"@) || hook
        == Some("KEQUAL.ne"@)) && items_of(sorts, arguments[0], arguments[1]) is Some {
        truly == compared(
            definition,
            meaning,
            items_of(sorts, arguments[0], arguments[1])->0,
            expected == (hook == Some("KEQUAL.eq"@)),
        )
    } else {
        sort_of(term) == simple_sort("SortBool"@) ==> truly == (meaning(PredicateV::Term(term))
            == expected)
    }
}

proof fn lemma_hooks_differ()
    ensures
        "KEQUAL.eq"@ != "KEQUAL.ne"@,
        "KEQUAL.eq"@ != "INT.eq"@,
        "KEQUAL.eq"@ != "INT.ne"@,
        "KEQUAL.ne"@ != "INT.eq"@,
        "KEQUAL.ne"@ != "INT.ne"@,
        "INT.eq"@ != "INT.ne"@,
        "BOOL.and"@ != "BOOL.or"@,
{
    reveal_strlit("KEQUAL.eq");
    reveal_strlit("KEQUAL.ne");
    reveal_strlit("INT.eq");
    reveal_strlit("INT.ne");
    reveal_strlit("BOOL.and");
    reveal_strlit("BOOL.or");
    assert("KEQUAL.eq"@[7] == 'e');
    assert("KEQUAL.ne"@[7] == 'n');
    assert("INT.eq"@[4] == 'e');
    assert("INT.ne"@[4] == 'n');
    assert("KEQUAL.eq"@[0] == 'K');
    assert("KEQUAL.ne"@[0] == 'K');
    assert("INT.eq"@[0] == 'I');
    assert("INT.ne"@[0] == 'I');
    assert("BOOL.and"@[5] == 'a');
    assert("BOOL.or"@[5] == 'o');
}

proof fn lemma_two(left: PredicateV, right: PredicateV, meaning: Meaning)
    requires
        admissible(meaning),
    ensures
        value(normalized(PredicateV::And(seq![left, right])), meaning) == (value(left, meaning)
            && value(right, meaning)),
        value(normalized(PredicateV::Or(seq![left, right])), meaning) == (value(left, meaning)
            || value(right, meaning)),
{
    let two = seq![left, right];
    lemma_all_hold(two, meaning, 0);
    lemma_none_holds(two, meaning, 0);
    assert(two[0] == left && two[1] == right);
    law_normal_form_keeps_value(PredicateV::And(two), meaning);
    law_normal_form_keeps_value(PredicateV::Or(two), meaning);
}

proof fn lemma_conditions(
    left: Seq<PredicateV>,
    right: Seq<PredicateV>,
    last: PredicateV,
    meaning: Meaning,
)
    requires
        admissible(meaning),
    ensures
        value(normalized(PredicateV::And((left + right).push(last))), meaning) == (all_hold(
            left,
            meaning,
            0,
        ) && all_hold(right, meaning, 0) && value(last, meaning)),
{
    let all = (left + right).push(last);
    lemma_all_hold(left, meaning, 0);
    lemma_all_hold(right, meaning, 0);
    lemma_all_hold(all, meaning, 0);
    law_normal_form_keeps_value(PredicateV::And(all), meaning);
    if all_hold(all, meaning, 0) {
        assert forall|i: int| 0 <= i < left.len() implies value(#[trigger] left[i], meaning) by {
            assert(all[i] == left[i]);
        }
        assert forall|i: int| 0 <= i < right.len() implies value(#[trigger] right[i], meaning) by {
            assert(all[left.len() + i] == right[i]);
        }
        assert(all[(left.len() + right.len()) as int] == last);
    } else {
        let i: int = choose|i: int| 0 <= i < all.len() && !value(#[trigger] all[i], meaning);
        if i < left.len() {
            assert(!value(left[i], meaning));
        } else if i < left.len() + right.len() {
            assert(!value(right[i - left.len()], meaning));
        }
    }
}

/// Whether a meaning takes all Boolean functions and equality functions for what they are.
pub open spec fn reads_all<K: Kernel>(
    definition: BackendDefinition<K>,
    meaning: Meaning,
) -> bool {
    forall|term: TermV, expected: bool| #[trigger] reads(definition, meaning, term, expected)
}

/// Whether a term is a Boolean function of as many arguments as it has to have.
spec fn is_connective(term: TermV) -> bool {
    let hook = term->Application_symbol.attributes.hook;
    let count = term->Application_arguments.len();
    term is Application && (((hook == Some("BOOL.and"@) || hook == Some("BOOL.or"@)) && count == 2)
        || (hook == Some("BOOL.not"@) && count == 1))
}

/// What an equality function compares.
spec fn comparison(sorts: SortGraphV, term: TermV, expected: bool) -> Option<(TermV, TermV)> {
    let hook = term->Application_symbol.attributes.hook;
    let arguments = term->Application_arguments;
    if term is Application && arguments.len() == 2 && equality_hook(hook, expected) is Some {
        let (_, sequences) = equality_hook(hook, expected)->0;
        equality_operands(sorts, arguments[0], arguments[1], sequences)
    } else {
        None
    }
}

/// Whether an equality function comes out as expected where its operands differ.
spec fn by_difference(term: TermV, expected: bool) -> bool {
    let (negate, _) = equality_hook(term->Application_symbol.attributes.hook, expected)->0;
    negate
}

/// What a term being `expected` means.
#[verifier::opaque]
spec fn read_as<K: Kernel>(
    definition: BackendDefinition<K>,
    term: TermV,
    expected: bool,
    original: PredicateV,
) -> PredicateV {
    hooked_meaning(definition, term, expected, original)
}

proof fn lemma_reads_comparison<K: Kernel>(
    definition: BackendDefinition<K>,
    meaning: Meaning,
    term: TermV,
    expected: bool,
)
    requires
        reads(definition, meaning, term, expected),
        !is_connective(term),
        comparison(definition.sort_graph@, term, expected) is Some,
    ensures
        comes_out(meaning, term, expected) == compared(
            definition,
            meaning,
            comparison(definition.sort_graph@, term, expected)->0,
            !by_difference(term, expected),
        ),
{
    reveal(reads);
    lemma_hooks_differ();
}

#[verifier::spinoff_prover]
proof fn lemma_comparison_unfolds<K: Kernel>(
    definition: BackendDefinition<K>,
    term: TermV,
    expected: bool,
    original: PredicateV,
)
    requires
        !is_connective(term),
        comparison(definition.sort_graph@, term, expected) is Some,
    ensures
        ({
            let (left, right) = comparison(definition.sort_graph@, term, expected)->0;
            let equality = PredicateV::Equals(left, right);
            read_as(definition, term, expected, original) == normalized(
                PredicateV::And(
                    (definition.kernel.ceil(left) + definition.kernel.ceil(right)).push(
                        if by_difference(term, expected) {
                            PredicateV::Not(Box::new(equality))
                        } else {
                            equality
                        },
                    ),
                ),
            )
        }),
{
    reveal(read_as);
}

#[verifier::spinoff_prover]
proof fn lemma_rest_unfolds<K: Kernel>(
    definition: BackendDefinition<K>,
    term: TermV,
    expected: bool,
    original: PredicateV,
)
    requires
        !is_connective(term),
        comparison(definition.sort_graph@, term, expected) is None,
    ensures
        read_as(definition, term, expected, original) == original || (sort_of(term)
            == simple_sort("SortBool"@) && bool_value_of(term) is None && read_as(
            definition,
            term,
            expected,
            original,
        ) == if expected {
            PredicateV::Term(term)
        } else {
            PredicateV::Not(Box::new(PredicateV::Term(term)))
        }),
        read_as(definition, term, expected, original) == original || !(term is Application)
            || equality_hook(term->Application_symbol.attributes.hook, expected) is None,
{
    reveal(read_as);
}

proof fn lemma_reads_rest<K: Kernel>(
    definition: BackendDefinition<K>,
    meaning: Meaning,
    term: TermV,
    expected: bool,
)
    requires
        reads(definition, meaning, term, expected),
        !is_connective(term),
        !(term is Application) || equality_hook(
            term->Application_symbol.attributes.hook,
            expected,
        ) is None,
        sort_of(term) == simple_sort("SortBool"@),
    ensures
        comes_out(meaning, term, expected) == (meaning(PredicateV::Term(term)) == expected),
{
    reveal(reads);
}

#[verifier::spinoff_prover]
proof fn lemma_reads_connective<K: Kernel>(
    definition: BackendDefinition<K>,
    meaning: Meaning,
    term: TermV,
    expected: bool,
)
    requires
        reads(definition, meaning, term, expected),
        is_connective(term),
        term->Application_arguments.len() == 2,
    ensures
        ({
            let arguments = term->Application_arguments;
            let first = comes_out(meaning, arguments[0], expected);
            let second = comes_out(meaning, arguments[1], expected);
            comes_out(meaning, term, expected) == if (term->Application_symbol.attributes.hook
                == Some("BOOL.and"@)) == expected {
                first && second
            } else {
                first || second
            }
        }),
{
    reveal(reads);
    lemma_hooks_differ();
}

#[verifier::spinoff_prover]
proof fn lemma_connective_unfolds<K: Kernel>(
    definition: BackendDefinition<K>,
    term: TermV,
    expected: bool,
    original: PredicateV,
)
    requires
        is_connective(term),
    ensures
        ({
            let arguments = term->Application_arguments;
            let made = read_as(definition, term, expected, original);
            if arguments.len() == 2 {
                let operands = seq![
                    read_as(
                        definition,
                        arguments[0],
                        expected,
                        PredicateV::Equals(arguments[0], bool_literal(expected)),
                    ),
                    read_as(
                        definition,
                        arguments[1],
                        expected,
                        PredicateV::Equals(arguments[1], bool_literal(expected)),
                    ),
                ];
                made == normalized(
                    if (term->Application_symbol.attributes.hook == Some("BOOL.and"@))
                        == expected {
                        PredicateV::And(operands)
                    } else {
                        PredicateV::Or(operands)
                    },
                )
            } else {
                made == read_as(
                    definition,
                    arguments[0],
                    !expected,
                    PredicateV::Equals(arguments[0], bool_literal(!expected)),
                )
            }
        }),
{
    reveal(read_as);
    let arguments = term->Application_arguments;
    assert(decreases_to!(term => term->Application_arguments));
    assert(decreases_to!(arguments => arguments[0]));
    if arguments.len() == 2 {
        assert(decreases_to!(arguments => arguments[1]));
    }
}

#[verifier::spinoff_prover]
proof fn lemma_hooked_meaning<K: Kernel>(
    definition: BackendDefinition<K>,
    meaning: Meaning,
    term: TermV,
    expected: bool,
    original: PredicateV,
)
    requires
        admissible(meaning),
        reads_all(definition, meaning),
        value(original, meaning) == comes_out(meaning, term, expected),
    ensures
        value(read_as(definition, term, expected, original), meaning) == comes_out(
            meaning,
            term,
            expected,
        ),
    decreases term,
{
    let made = read_as(definition, term, expected, original);
    let arguments = term->Application_arguments;
    assert(reads(definition, meaning, term, expected));
    if is_connective(term) {
        assert(decreases_to!(term => term->Application_arguments));
        assert(decreases_to!(arguments => arguments[0]));
        lemma_connective_unfolds(definition, term, expected, original);
        if arguments.len() == 2 {
            assert(decreases_to!(arguments => arguments[1]));
            let first = PredicateV::Equals(arguments[0], bool_literal(expected));
            let second = PredicateV::Equals(arguments[1], bool_literal(expected));
            assert(value(first, meaning) == meaning(first));
            assert(value(second, meaning) == meaning(second));
            lemma_hooked_meaning(definition, meaning, arguments[0], expected, first);
            lemma_hooked_meaning(definition, meaning, arguments[1], expected, second);
            let left = read_as(definition, arguments[0], expected, first);
            let right = read_as(definition, arguments[1], expected, second);
            lemma_two(left, right, meaning);
            lemma_reads_connective(definition, meaning, term, expected);
        } else {
            let opposite = PredicateV::Equals(arguments[0], bool_literal(!expected));
            assert(value(opposite, meaning) == meaning(opposite));
            lemma_hooked_meaning(definition, meaning, arguments[0], !expected, opposite);
            lemma_reads_negation(definition, meaning, term, expected);
        }
    } else if let Some((left, right)) = comparison(definition.sort_graph@, term, expected) {
        let equality = PredicateV::Equals(left, right);
        let condition = if by_difference(term, expected) {
            PredicateV::Not(Box::new(equality))
        } else {
            equality
        };
        let before = definition.kernel.ceil(left);
        let behind = definition.kernel.ceil(right);
        assert(value(equality, meaning) == meaning(equality));
        assert(value(PredicateV::Not(Box::new(equality)), meaning) == !meaning(equality));
        lemma_comparison_unfolds(definition, term, expected, original);
        lemma_reads_comparison(definition, meaning, term, expected);
        lemma_conditions(before, behind, condition, meaning);
    } else {
        lemma_rest_unfolds(definition, term, expected, original);
        if made != original {
            let positive = PredicateV::Term(term);
            assert(value(positive, meaning) == meaning(positive));
            assert(value(PredicateV::Not(Box::new(positive)), meaning) == !meaning(positive));
            lemma_reads_rest(definition, meaning, term, expected);
        }
    }
}

proof fn lemma_reads_negation<K: Kernel>(
    definition: BackendDefinition<K>,
    meaning: Meaning,
    term: TermV,
    expected: bool,
)
    requires
        reads(definition, meaning, term, expected),
        is_connective(term),
        term->Application_arguments.len() == 1,
    ensures
        comes_out(meaning, term, expected) == comes_out(
            meaning,
            term->Application_arguments[0],
            !expected,
        ),
{
    reveal(reads);
}

/// Where Boolean functions and equality functions mean what they are, a predicate keeps its value
/// when they are taken as connectives and equalities.
pub proof fn law_functions_as_connectives_keep_value<K: Kernel>(
    definition: BackendDefinition<K>,
    predicate: PredicateV,
    meaning: Meaning,
)
    requires
        admissible(meaning),
        reads_all(definition, meaning),
    ensures
        value(hooked_normalized(definition, predicate), meaning) == value(predicate, meaning),
{
    match predicate {
        PredicateV::Term(term) => {
            reveal(reads);
            assert(reads(definition, meaning, term, true));
            lemma_hooked_equality(definition, term, bool_literal(true), meaning);
        },
        PredicateV::Equals(left, right) => {
            lemma_hooked_equality(definition, left, right, meaning);
        },
        _ => {},
    }
}

proof fn lemma_hooked_equality<K: Kernel>(
    definition: BackendDefinition<K>,
    left: TermV,
    right: TermV,
    meaning: Meaning,
)
    requires
        admissible(meaning),
        reads_all(definition, meaning),
    ensures
        value(hooked_equality(definition, left, right), meaning) == meaning(
            PredicateV::Equals(left, right),
        ),
{
    reveal(read_as);
    let original = PredicateV::Equals(left, right);
    match (bool_value_of(right), bool_value_of(left)) {
        (Some(expected), _) => {
            lemma_hooked_meaning(definition, meaning, left, expected, original);
        },
        (None, Some(expected)) => {
            reveal(reads);
            assert(reads(definition, meaning, right, expected));
            lemma_hooked_meaning(definition, meaning, right, expected, original);
        },
        (None, None) => {},
    }
}

} // verus!
