//! What a normal form keeps of a predicate: what is known of its truth.
use vstd::prelude::*;

use crate::index::{push_unique, unique_from};
use crate::normalize::{
    all_negated, all_normalized, any_normalized, conjoined_part, conjunction_of, disjoined_part,
    disjunction_of, negated, normalized,
};
use crate::predicate::PredicateV;
use crate::truth::{
    all_truth, any_truth, both, conjunction_truth, either, law_conjunction_false,
    law_conjunction_true, law_disjunction, opposite, truth_of, Truth,
};

verus! {

/// Whether `later` says at least what `earlier` says.
pub open spec fn as_known(earlier: Truth, later: Truth) -> bool {
    earlier is Unknown || later == earlier
}

/// What is known of a conjunction of `parts`; one without parts to list is false.
pub open spec fn parts_conjoined(parts: Option<Seq<PredicateV>>) -> Truth {
    match parts {
        None => Truth::False,
        Some(parts) => conjunction_truth(parts),
    }
}

/// What is known of a disjunction of `parts`; one without parts to list is true.
pub open spec fn parts_disjoined(parts: Option<Seq<PredicateV>>) -> Truth {
    match parts {
        None => Truth::True,
        Some(parts) => any_truth(parts, Truth::False, 0),
    }
}

proof fn lemma_push_conjoined(parts: Seq<PredicateV>, part: PredicateV)
    ensures
        conjunction_truth(push_unique(parts, part)) == both(
            conjunction_truth(parts),
            truth_of(part),
        ),
{
    let pushed = push_unique(parts, part);
    law_conjunction_false(parts);
    law_conjunction_true(parts);
    law_conjunction_false(pushed);
    law_conjunction_true(pushed);
    assert forall|i: int| 0 <= i < parts.len() implies pushed[i] == #[trigger] parts[i] by {}
    if parts.contains(part) {
        let i: int = choose|i: int| 0 <= i < parts.len() && parts[i] == part;
        assert(truth_of(parts[i]) == truth_of(part));
    } else {
        assert(pushed[parts.len() as int] == part);
        assert(truth_of(pushed[parts.len() as int]) == truth_of(part));
        if conjunction_truth(parts) is False {
            let i: int = choose|i: int|
                0 <= i < parts.len() && truth_of(#[trigger] parts[i]) is False;
            assert(pushed[i] == parts[i]);
        }
        if conjunction_truth(pushed) is True {
            assert forall|i: int| 0 <= i < parts.len() implies truth_of(
                #[trigger] parts[i],
            ) is True by {
                assert(pushed[i] == parts[i]);
            }
        }
    }
}

proof fn lemma_unique_conjoined(parts: Seq<PredicateV>, added: Seq<PredicateV>, from: int)
    requires
        0 <= from <= added.len(),
    ensures
        conjunction_truth(unique_from(parts, added, from)) == all_truth(
            added,
            conjunction_truth(parts),
            from,
        ),
    decreases added.len() - from,
{
    if from < added.len() {
        lemma_push_conjoined(parts, added[from]);
        lemma_unique_conjoined(push_unique(parts, added[from]), added, from + 1);
    }
}

proof fn lemma_all_from(predicates: Seq<PredicateV>, truth: Truth, from: int)
    requires
        0 <= from <= predicates.len(),
    ensures
        all_truth(predicates, truth, from) == both(
            truth,
            all_truth(predicates, Truth::True, from),
        ),
    decreases predicates.len() - from,
{
    if from < predicates.len() {
        let next = truth_of(predicates[from]);
        lemma_all_from(predicates, both(truth, next), from + 1);
        lemma_all_from(predicates, both(Truth::True, next), from + 1);
    }
}

proof fn lemma_conjoined(parts: Option<Seq<PredicateV>>, part: PredicateV)
    ensures
        parts_conjoined(conjoined_part(parts, part)) == both(
            parts_conjoined(parts),
            truth_of(part),
        ),
{
    match (parts, part) {
        (Some(parts), PredicateV::And(nested)) => {
            lemma_unique_conjoined(parts, nested, 0);
            lemma_all_from(nested, conjunction_truth(parts), 0);
        },
        (Some(parts), part) => {
            lemma_push_conjoined(parts, part);
        },
        _ => {},
    }
}

proof fn lemma_disjoined(parts: Option<Seq<PredicateV>>, part: PredicateV)
    ensures
        parts_disjoined(disjoined_part(parts, part)) == either(
            parts_disjoined(parts),
            truth_of(part),
        ),
{
    match (parts, part) {
        (Some(parts), PredicateV::Or(nested)) => {
            lemma_disjunctions(parts, nested);
        },
        (Some(parts), part) => {
            lemma_disjunctions(parts, seq![part]);
            law_disjunction(seq![part]);
            assert(seq![part][0] == part);
            assert(parts.push(part) =~= parts + seq![part]);
        },
        _ => {},
    }
}

proof fn lemma_disjunctions(left: Seq<PredicateV>, right: Seq<PredicateV>)
    ensures
        truth_of(PredicateV::Or(left + right)) == either(
            truth_of(PredicateV::Or(left)),
            truth_of(PredicateV::Or(right)),
        ),
{
    let joined = left + right;
    law_disjunction(left);
    law_disjunction(right);
    law_disjunction(joined);
    assert forall|i: int| 0 <= i < left.len() implies joined[i] == #[trigger] left[i] by {}
    assert forall|i: int| 0 <= i < right.len() implies joined[left.len() + i]
        == #[trigger] right[i] by {}
    assert forall|i: int| 0 <= i < joined.len() implies #[trigger] joined[i] == (if i
        < left.len() {
        left[i]
    } else {
        right[i - left.len()]
    }) by {}
}

proof fn lemma_conjunction_of(parts: Option<Seq<PredicateV>>)
    ensures
        truth_of(conjunction_of(parts)) == parts_conjoined(parts),
{
    if let Some(parts) = parts {
        law_conjunction_false(parts);
        law_conjunction_true(parts);
        if parts.len() == 1 {
            assert(truth_of(parts[0]) == conjunction_truth(parts));
        }
    }
}

proof fn lemma_disjunction_of(parts: Option<Seq<PredicateV>>)
    ensures
        truth_of(disjunction_of(parts)) == parts_disjoined(parts),
{
    if let Some(parts) = parts {
        law_disjunction(parts);
        if parts.len() == 1 {
            assert(truth_of(parts[0]) == truth_of(PredicateV::Or(parts)));
        }
    }
}

/// The normal form of a predicate that is known to be true or to be false is known to be so too,
/// and the normal form of its negation is known to be the opposite.
pub proof fn law_normal_form_keeps_truth(predicate: PredicateV)
    ensures
        !(truth_of(predicate) is Unknown) ==> truth_of(normalized(predicate)) == truth_of(
            predicate,
        ) && truth_of(negated(predicate)) == opposite(truth_of(predicate)),
    decreases predicate, 0int,
{
    match predicate {
        PredicateV::Not(inner) => {
            law_normal_form_keeps_truth(*inner);
        },
        PredicateV::And(inner) => {
            law_conjunction_true(Seq::empty());
            lemma_all_normalized(inner, Some(Seq::empty()), Truth::True, 0);
            lemma_conjunction_of(all_normalized(inner, Some(Seq::empty()), 0));
        },
        PredicateV::Or(inner) => {
            law_conjunction_true(Seq::empty());
            law_disjunction(Seq::empty());
            lemma_any_normalized(inner, Some(Seq::empty()), Truth::False, 0);
            lemma_disjunction_of(any_normalized(inner, Some(Seq::empty()), 0));
            lemma_all_negated(inner, Some(Seq::empty()), Truth::False, 0);
            lemma_conjunction_of(all_negated(inner, Some(Seq::empty()), 0));
        },
        PredicateV::Implies(left, right) => {
            law_normal_form_keeps_truth(*left);
        },
        PredicateV::Iff(left, right) => {
            law_normal_form_keeps_truth(*left);
            law_normal_form_keeps_truth(*right);
        },
        _ => {},
    }
}

proof fn lemma_all_normalized(
    predicates: Seq<PredicateV>,
    parts: Option<Seq<PredicateV>>,
    truth: Truth,
    from: int,
)
    requires
        0 <= from <= predicates.len(),
        as_known(truth, parts_conjoined(parts)),
    ensures
        as_known(
            all_truth(predicates, truth, from),
            parts_conjoined(all_normalized(predicates, parts, from)),
        ),
    decreases predicates, predicates.len() - from,
{
    if from < predicates.len() {
        let next = predicates[from];
        law_normal_form_keeps_truth(next);
        lemma_conjoined(parts, normalized(next));
        lemma_all_normalized(
            predicates,
            conjoined_part(parts, normalized(next)),
            both(truth, truth_of(next)),
            from + 1,
        );
    }
}

proof fn lemma_any_normalized(
    predicates: Seq<PredicateV>,
    parts: Option<Seq<PredicateV>>,
    truth: Truth,
    from: int,
)
    requires
        0 <= from <= predicates.len(),
        as_known(truth, parts_disjoined(parts)),
    ensures
        as_known(
            any_truth(predicates, truth, from),
            parts_disjoined(any_normalized(predicates, parts, from)),
        ),
    decreases predicates, predicates.len() - from,
{
    if from < predicates.len() {
        let next = predicates[from];
        law_normal_form_keeps_truth(next);
        lemma_disjoined(parts, normalized(next));
        lemma_any_normalized(
            predicates,
            disjoined_part(parts, normalized(next)),
            either(truth, truth_of(next)),
            from + 1,
        );
    }
}

proof fn lemma_all_negated(
    predicates: Seq<PredicateV>,
    parts: Option<Seq<PredicateV>>,
    truth: Truth,
    from: int,
)
    requires
        0 <= from <= predicates.len(),
        as_known(opposite(truth), parts_conjoined(parts)),
    ensures
        as_known(
            opposite(any_truth(predicates, truth, from)),
            parts_conjoined(all_negated(predicates, parts, from)),
        ),
    decreases predicates, predicates.len() - from,
{
    if from < predicates.len() {
        let next = predicates[from];
        law_normal_form_keeps_truth(next);
        lemma_conjoined(parts, negated(next));
        lemma_all_negated(
            predicates,
            conjoined_part(parts, negated(next)),
            either(truth, truth_of(next)),
            from + 1,
        );
    }
}

} // verus!
