//! What the steps that match collections say of the terms.

use vstd::prelude::*;
use crate::alike::{all_alike, alike, lemma_alike_list};
use crate::collection_laws::{
    all_replaced, lemma_list_children, lemma_list_merged, lemma_list_normal, lemma_list_replaced,
    lemma_list_rest, rest_normal, rest_replaced,
};
use crate::construct::{list_term, occurs, occurs_from};
use crate::match_collections::{
    list_rest_step, lists_step, prefix_pairs, prefix_remainder, suffix_remainder,
};
use crate::match_laws::{
    barred, fits, kept_step, lemma_fits_child, lemma_occurs_child, lemma_part_child, pairs_fit,
    pairs_hold, part, sound_step, steady, Whole,
};
use crate::matcher::list_rest;
use crate::matching::{enqueued_all, MatchMode, PairRemainderV, ProgressV};
use crate::ops::{children, lemma_child_smaller, rest_seq};
use crate::substitution::{substituted, SubstitutionV};
use crate::term::{CollectionDefinitionV, TermV, VariableV};

verus! {

// ---------------------------------------------------------------------------------------------
// Variables
// ---------------------------------------------------------------------------------------------
/// Whether a variable occurs in one of `terms`.
pub open spec fn occurs_among(variable: VariableV, terms: Seq<TermV>) -> bool {
    exists|i: int| 0 <= i < terms.len() && occurs(variable, #[trigger] terms[i])
}

/// Whether a variable occurs in the rest of a collection.
pub open spec fn occurs_in_rest(variable: VariableV, rest: Option<Box<TermV>>) -> bool {
    rest is Some && occurs(variable, *rest->0)
}

pub proof fn lemma_some_child(variable: VariableV, term: TermV, from: int)
    requires
        0 <= from,
        occurs_from(variable, term, from),
    ensures
        occurs_among(variable, children(term)),
    decreases children(term).len() - from,
{
    if from < children(term).len() {
        lemma_child_smaller(term, from);
        if occurs(variable, children(term)[from]) {
            assert(occurs_among(variable, children(term)));
        } else {
            lemma_some_child(variable, term, from + 1);
        }
    }
}

pub proof fn lemma_among_joined(variable: VariableV, left: Seq<TermV>, right: Seq<TermV>)
    ensures
        occurs_among(variable, left + right) ==> occurs_among(variable, left) || occurs_among(
            variable,
            right,
        ),
{
    let all = left + right;
    if occurs_among(variable, all) {
        let i: int = choose|i: int| 0 <= i < all.len() && occurs(variable, #[trigger] all[i]);
        if i < left.len() {
            assert(occurs(variable, left[i]));
        } else {
            assert(occurs(variable, right[i - left.len()]));
        }
    }
}

pub proof fn lemma_among_children(variable: VariableV, term: TermV, parts: Seq<TermV>, from: int)
    requires
        0 <= from,
        from + parts.len() <= children(term).len(),
        !(term is Variable),
        forall|i: int| 0 <= i < parts.len() ==> #[trigger] parts[i] == children(term)[from + i],
        occurs_among(variable, parts),
    ensures
        occurs(variable, term),
{
    let i: int = choose|i: int| 0 <= i < parts.len() && occurs(variable, #[trigger] parts[i]);
    assert(occurs(variable, children(term)[from + i]));
    lemma_occurs_child(variable, term, 0, from + i);
}

/// A variable in a list is one in its parts.
pub proof fn lemma_occurs_list(
    variable: VariableV,
    definition: CollectionDefinitionV,
    heads: Seq<TermV>,
    rest: Option<Box<TermV>>,
    tails: Seq<TermV>,
)
    requires
        occurs(variable, list_term(definition, heads, rest, tails)),
    ensures
        occurs_among(variable, heads) || occurs_in_rest(variable, rest) || occurs_among(
            variable,
            tails,
        ),
{
    let term = list_term(definition, heads, rest, tails);
    reveal(list_term);
    let same = rest is Some && *rest->0 is KList && (*rest->0)->KList_definition == definition;
    if same && (*rest->0)->KList_rest is Some && term == *(*rest->0)->KList_rest->0 {
        let inner = *rest->0;
        lemma_list_children(inner);
        assert(occurs(variable, rest_seq(inner->KList_rest)[0]));
        lemma_among_children(
            variable,
            inner,
            rest_seq(inner->KList_rest),
            inner->KList_heads.len() as int,
        );
    } else if !occurs_in_rest(variable, rest) {
        assert(term is KList);
        lemma_list_children(term);
        lemma_some_child(variable, term, 0);
        lemma_among_joined(
            variable,
            term->KList_heads + rest_seq(term->KList_rest),
            term->KList_tails,
        );
        lemma_among_joined(variable, term->KList_heads, rest_seq(term->KList_rest));
        if same {
            let inner = *rest->0;
            lemma_list_children(inner);
            let more = inner->KList_heads;
            let less = inner->KList_tails;
            lemma_among_joined(variable, heads, more);
            lemma_among_joined(variable, less, tails);
            lemma_among_joined(variable, heads + more, less + tails);
            if occurs_among(variable, more) {
                lemma_among_children(variable, inner, more, 0);
            }
            if occurs_among(variable, less) {
                lemma_among_children(
                    variable,
                    inner,
                    less,
                    (more.len() + rest_seq(inner->KList_rest).len()) as int,
                );
            }
            if occurs_among(variable, rest_seq(inner->KList_rest)) {
                lemma_among_children(
                    variable,
                    inner,
                    rest_seq(inner->KList_rest),
                    more.len() as int,
                );
            }
        } else {
            lemma_among_joined(variable, heads, tails);
            if occurs_among(variable, rest_seq(rest)) {
                let i: int = choose|i: int|
                    0 <= i < rest_seq(rest).len() && occurs(variable, #[trigger] rest_seq(rest)[i]);
                assert(occurs(variable, *rest->0));
            }
        }
    }
}

// ---------------------------------------------------------------------------------------------
// Lists
// ---------------------------------------------------------------------------------------------
/// Whether all of `terms` can stand on the side of the pattern.
pub open spec fn all_parts(terms: Seq<TermV>, whole: Whole) -> bool {
    forall|i: int| 0 <= i < terms.len() ==> part(#[trigger] terms[i], whole)
}

/// Whether all of `terms` can stand on the side of the subject.
pub open spec fn all_fit(terms: Seq<TermV>, whole: Whole) -> bool {
    forall|i: int| 0 <= i < terms.len() ==> fits(#[trigger] terms[i], whole)
}

proof fn lemma_list_parts(term: TermV, whole: Whole)
    requires
        term is KList,
    ensures
        part(term, whole) ==> all_parts(term->KList_heads, whole) && all_parts(
            term->KList_tails,
            whole,
        ) && (term->KList_rest is Some ==> part(*term->KList_rest->0, whole)),
        fits(term, whole) ==> all_fit(term->KList_heads, whole) && all_fit(
            term->KList_tails,
            whole,
        ) && (term->KList_rest is Some ==> fits(*term->KList_rest->0, whole)),
{
    lemma_list_children(term);
    let all = children(term);
    let heads = term->KList_heads;
    let tails = term->KList_tails;
    let behind = (heads.len() + rest_seq(term->KList_rest).len()) as int;
    assert forall|i: int| 0 <= i < heads.len() implies #[trigger] heads[i] == all[i] by {}
    assert forall|i: int| 0 <= i < tails.len() implies #[trigger] tails[i] == all[behind + i] by {}
    if term->KList_rest is Some {
        assert(all[heads.len() as int] == *term->KList_rest->0);
    }
    assert forall|i: int| 0 <= i < all.len() && part(term, whole) implies part(
        #[trigger] all[i],
        whole,
    ) by {
        lemma_part_child(term, whole, i);
    }
    assert forall|i: int| 0 <= i < all.len() && fits(term, whole) implies fits(
        #[trigger] all[i],
        whole,
    ) by {
        lemma_fits_child(term, whole, i);
    }
}

proof fn lemma_list_fits(
    definition: CollectionDefinitionV,
    heads: Seq<TermV>,
    rest: Option<Box<TermV>>,
    tails: Seq<TermV>,
    whole: Whole,
)
    requires
        all_fit(heads, whole),
        all_fit(tails, whole),
        rest is Some ==> fits(*rest->0, whole),
    ensures
        fits(list_term(definition, heads, rest, tails), whole),
{
    lemma_list_normal(definition, heads, rest, tails);
    let term = list_term(definition, heads, rest, tails);
    assert forall|v: VariableV| #[trigger] barred(v, whole) implies !occurs(v, term) by {
        if occurs(v, term) {
            lemma_occurs_list(v, definition, heads, rest, tails);
        }
    }
}

/// A list pattern becomes the list that its parts were matched with.
proof fn lemma_list_matched(
    definition: CollectionDefinitionV,
    pattern: TermV,
    before: Seq<TermV>,
    heads: Seq<TermV>,
    rest: Option<Box<TermV>>,
    tails: Seq<TermV>,
    after: Seq<TermV>,
    whole: Whole,
    last: SubstitutionV,
)
    requires
        pattern is KList,
        pattern->KList_definition == definition,
        pattern->KList_rest is Some,
        rest_normal(rest),
        all_alike(whole.overloads, all_replaced(pattern->KList_heads, last), before),
        all_alike(whole.overloads, all_replaced(pattern->KList_tails, last), after),
        alike(
            whole.overloads,
            substituted(*pattern->KList_rest->0, last),
            list_term(definition, heads, rest, tails),
        ),
    ensures
        alike(
            whole.overloads,
            substituted(pattern, last),
            list_term(definition, before + heads, rest, tails + after),
        ),
{
    lemma_list_replaced(pattern, last);
    lemma_list_merged(definition, before, heads, rest, tails, after);
    lemma_alike_list(
        whole.overloads,
        definition,
        all_replaced(pattern->KList_heads, last),
        rest_replaced(pattern->KList_rest, last),
        all_replaced(pattern->KList_tails, last),
        before,
        Some(Box::new(list_term(definition, heads, rest, tails))),
        after,
    );
}

/// The pairs behind the prefix that a list pattern with a rest leads to.
proof fn lemma_open_list_step(
    mode: MatchMode,
    rest: ProgressV,
    pattern: TermV,
    subject: TermV,
    whole: Whole,
    last: SubstitutionV,
)
    requires
        pattern is KList,
        subject is KList,
        pattern->KList_definition == subject->KList_definition,
        pattern->KList_rest is Some,
        part(pattern, whole),
        fits(subject, whole),
        list_rest_step(
            mode,
            rest,
            pattern->KList_definition,
            list_rest(pattern),
            list_rest(subject),
            prefix_remainder(pattern->KList_heads, subject->KList_heads),
        ) is Ok,
    ensures
        ({
            let (next, pairs) = list_rest_step(
                mode,
                rest,
                pattern->KList_definition,
                list_rest(pattern),
                list_rest(subject),
                prefix_remainder(pattern->KList_heads, subject->KList_heads),
            )->Ok_0;
            let heads = pattern->KList_heads;
            &&& pairs_fit(pairs, 0, whole)
            &&& next == rest || next.indeterminate.len() > rest.indeterminate.len() && next
                == (ProgressV { indeterminate: next.indeterminate, ..rest })
            &&& next == rest && pairs_hold(whole.overloads, pairs, 0, last) && heads.len()
                <= subject->KList_heads.len() && all_alike(
                whole.overloads,
                all_replaced(heads, last),
                subject->KList_heads.take(heads.len() as int),
            ) ==> alike(whole.overloads, substituted(pattern, last), subject)
            &&& next == rest ==> heads.len() <= subject->KList_heads.len()
        }),
{
    lemma_list_rest(pattern);
    lemma_list_rest(subject);
    lemma_list_parts(pattern, whole);
    lemma_list_parts(subject, whole);
    let definition = pattern->KList_definition;
    let heads = pattern->KList_heads;
    let tails = pattern->KList_tails;
    let middle = *pattern->KList_rest->0;
    let others = subject->KList_heads;
    let none = Seq::<TermV>::empty();
    let (next, pairs) = list_rest_step(
        mode,
        rest,
        definition,
        list_rest(pattern),
        list_rest(subject),
        prefix_remainder(heads, others),
    )->Ok_0;
    if heads.len() <= others.len() && next == rest {
        let before = others.take(heads.len() as int);
        let left = others.skip(heads.len() as int);
        assert(before + left =~= others);
        if left.len() > 0 {
            assert(left =~= others.subrange(heads.len() as int, others.len() as int));
        } else {
            assert(left =~= none);
        }
        let remainder = prefix_remainder(heads, others);
        assert(remainder == if left.len() > 0 {
            Some(PairRemainderV::Right(left))
        } else {
            None
        });
        let behind = if subject->KList_rest is Some {
            subject->KList_tails
        } else {
            left
        };
        assert(next.indeterminate.len() == rest.indeterminate.len());
        if tails.len() > behind.len() {
            assert(suffix_remainder(tails, behind) is Some && suffix_remainder(
                tails,
                behind,
            )->0 is Left);
            if subject->KList_rest is Some {
                assert(next.indeterminate.len() == rest.indeterminate.len() + 1);
            }
        }
        let extra = behind.take(behind.len() - tails.len());
        let after = behind.skip(behind.len() - tails.len());
        assert(tails.len() <= behind.len());
        assert(extra + after =~= behind);
        if extra.len() > 0 {
            assert(extra =~= behind.subrange(0, behind.len() - tails.len()));
        } else {
            assert(extra =~= none);
        }
        let (more, less) = if subject->KList_rest is Some {
            (left, extra)
        } else {
            (extra, none)
        };
        let found = list_term(definition, more, subject->KList_rest, less);
        assert(pairs[0] == (middle, found));
        assert(pairs.len() == 1 + tails.len());
        assert forall|i: int| 0 <= i < tails.len() implies #[trigger] pairs[1 + i] == (
            tails[i],
            after[i],
        ) by {}
        assert(all_fit(more, whole));
        assert(all_fit(less, whole));
        assert(all_fit(after, whole));
        lemma_list_fits(definition, more, subject->KList_rest, less, whole);
        assert forall|i: int| 0 <= i < pairs.len() implies part((#[trigger] pairs[i]).0, whole)
            && fits(pairs[i].1, whole) by {
            if i > 0 {
                assert(pairs[1 + (i - 1)] == (tails[i - 1], after[i - 1]));
            }
        }
        if pairs_hold(whole.overloads, pairs, 0, last) && all_alike(whole.overloads, all_replaced(heads, last), before) {
            let replaced = all_replaced(tails, last);
            assert forall|i: int| 0 <= i < replaced.len() implies alike(
                whole.overloads,
                #[trigger] replaced[i],
                after[i],
            ) by {
                assert(pairs[1 + i] == (tails[i], after[i]));
            }
            assert(alike(whole.overloads, substituted(pairs[0].0, last), pairs[0].1));
            lemma_list_matched(
                definition,
                pattern,
                before,
                more,
                subject->KList_rest,
                less,
                after,
                whole,
                last,
            );
            reveal(list_term);
            if subject->KList_rest is None {
                assert((before + more) + (less + after) =~= others);
                assert(others + none =~= others);
            } else {
                assert(less + after =~= subject->KList_tails);
            }
        }
    }
}

/// The step that matches two lists keeps what was matched, and is sound.
pub proof fn lemma_lists_step(
    mode: MatchMode,
    rest: ProgressV,
    pattern: TermV,
    subject: TermV,
    whole: Whole,
    last: SubstitutionV,
)
    requires
        pattern is KList,
        subject is KList,
        pattern->KList_definition == subject->KList_definition,
        steady(rest.substitution, whole),
        part(pattern, whole),
        fits(subject, whole),
        lists_step(
            mode,
            rest,
            pattern->KList_definition,
            pattern->KList_heads,
            list_rest(pattern),
            subject->KList_heads,
            list_rest(subject),
        ) is Ok,
    ensures
        ({
            let next = lists_step(
                mode,
                rest,
                pattern->KList_definition,
                pattern->KList_heads,
                list_rest(pattern),
                subject->KList_heads,
                list_rest(subject),
            )->Ok_0;
            kept_step(rest, next, whole) && sound_step(rest, next, pattern, subject, whole, last)
        }),
{
    let definition = pattern->KList_definition;
    let heads = pattern->KList_heads;
    let others = subject->KList_heads;
    let start = rest.queue.len() as int;
    let first = prefix_pairs(heads, others);
    let (between, pairs) = list_rest_step(
        mode,
        rest,
        definition,
        list_rest(pattern),
        list_rest(subject),
        prefix_remainder(heads, others),
    )->Ok_0;
    let next = enqueued_all(between, first + pairs);
    lemma_list_parts(pattern, whole);
    lemma_list_parts(subject, whole);
    lemma_list_rest(pattern);
    lemma_list_rest(subject);
    if pattern->KList_rest is Some {
        lemma_open_list_step(mode, rest, pattern, subject, whole, last);
    }
    assert forall|i: int| 0 <= i < first.len() implies #[trigger] next.queue[start + i] == (
        heads[i],
        others[i],
    ) by {}
    assert forall|i: int| 0 <= i < pairs.len() implies #[trigger] next.queue[start + first.len()
        + i] == pairs[i] by {}
    assert forall|i: int| start <= i < next.queue.len() implies part(
        (#[trigger] next.queue[i]).0,
        whole,
    ) && fits(next.queue[i].1, whole) by {
        let k = i - start;
        if k < first.len() {
            assert(next.queue[start + k] == (heads[k], others[k]));
        } else {
            assert(next.queue[start + first.len() + (k - first.len())] == pairs[k - first.len()]);
        }
    }
    assert(between.queue == rest.queue && between.map_queue == rest.map_queue);
    assert(between.substitution == rest.substitution);
    assert forall|i: int| 0 <= i < rest.queue.len() implies #[trigger] next.queue[i]
        == rest.queue[i] by {}
    assert(kept_step(rest, next, whole));
    if next.indeterminate.len() == rest.indeterminate.len() && pairs_hold(whole.overloads, next.queue, start, last) {
        let before = others.take(first.len() as int);
        let replaced = all_replaced(heads, last);
        assert forall|i: int| 0 <= i < first.len() implies alike(
            whole.overloads,
            #[trigger] replaced[i],
            before[i],
        ) by {
            assert(next.queue[start + i] == (heads[i], others[i]));
        }
        assert forall|i: int| 0 <= i < pairs.len() implies alike(
            whole.overloads,
            substituted((#[trigger] pairs[i]).0, last),
            pairs[i].1,
        ) by {
            assert(next.queue[start + first.len() + i] == pairs[i]);
        }
        if pattern->KList_rest is Some {
            assert(between == rest);
            assert(first.len() == heads.len());
            assert(all_alike(whole.overloads, replaced, before));
            assert(pairs_hold(whole.overloads, pairs, 0, last));
            assert(alike(whole.overloads, substituted(pattern, last), subject));
        } else {
            let none = Seq::<TermV>::empty();
            assert(heads.len() == others.len());
            assert(subject->KList_rest is None);
            assert(subject->KList_tails =~= none);
            lemma_list_replaced(pattern, last);
            assert(before =~= others);
            assert(all_replaced(pattern->KList_tails, last) =~= none);
            lemma_alike_list(whole.overloads, definition, replaced, None, none, others, None, none);
            assert(alike(whole.overloads, substituted(pattern, last), subject));
        }
    }
}

} // verus!
