//! Matching of lists, maps and sets.

use vstd::prelude::*;
use crate::assoc::{assoc, assoc_get, collect_assoc, collected};
use crate::construct::{constructor_like, list_term, map_term, optional_view, set_term};
use crate::matching::{
    deferred, enqueued, enqueued_all, is_concat, is_opaque_concat, is_variable, step_view,
    FailReason, FailReasonV, MapRemainder, MapRemainderV, MatchMode, PairRemainder, PairRemainderV,
    Progress, ProgressV, Step,
};
use crate::model::{deep, difference, group_deep, intersect, intersection, subtract, Value};
use crate::ops::{into_sorted, sorted};
use crate::substitution::{substitute, substituted, Substitution, SubstitutionV};
use crate::term::{CollectionDefinition, CollectionDefinitionV, Term, TermV};

verus! {

broadcast use group_deep;

/// The rest of a collection in the form in which a term holds it.
pub open spec fn boxed_rest(rest: Option<TermV>) -> Option<Box<TermV>> {
    match rest {
        Some(rest) => Some(Box::new(rest)),
        None => None,
    }
}

pub broadcast proof fn lemma_optional_view(rest: Option<Term>)
    ensures
        #[trigger] optional_view(rest) == boxed_rest(rest.deep_view()),
{
}

// ---------------------------------------------------------------------------------------------
// Pairs of sequences
// ---------------------------------------------------------------------------------------------
/// The smaller of two lengths.
pub open spec fn shorter(left: Seq<TermV>, right: Seq<TermV>) -> nat {
    if left.len() <= right.len() {
        left.len()
    } else {
        right.len()
    }
}

/// The pairs of items in the same position, counted from the front.
pub open spec fn prefix_pairs(left: Seq<TermV>, right: Seq<TermV>) -> Seq<(TermV, TermV)> {
    Seq::new(shorter(left, right), |i: int| (left[i], right[i]))
}

/// The items behind the pairs.
pub open spec fn prefix_remainder(left: Seq<TermV>, right: Seq<TermV>) -> Option<PairRemainderV> {
    let common = shorter(left, right) as int;
    if left.len() > common {
        Some(PairRemainderV::Left(left.subrange(common, left.len() as int)))
    } else if right.len() > common {
        Some(PairRemainderV::Right(right.subrange(common, right.len() as int)))
    } else {
        None
    }
}

/// The pairs of items in the same position, counted from the back.
pub open spec fn suffix_pairs(left: Seq<TermV>, right: Seq<TermV>) -> Seq<(TermV, TermV)> {
    let common = shorter(left, right);
    Seq::new(common, |i: int| (left[left.len() - common + i], right[right.len() - common + i]))
}

/// The items before the pairs.
pub open spec fn suffix_remainder(left: Seq<TermV>, right: Seq<TermV>) -> Option<PairRemainderV> {
    let common = shorter(left, right) as int;
    if left.len() > common {
        Some(PairRemainderV::Left(left.subrange(0, left.len() - common)))
    } else if right.len() > common {
        Some(PairRemainderV::Right(right.subrange(0, right.len() - common)))
    } else {
        None
    }
}

/// The items on one side of the pairs with the remainder of that side.
pub open spec fn side_after(
    pairs: Seq<(TermV, TermV)>,
    remainder: Option<PairRemainderV>,
    left: bool,
) -> Seq<TermV> {
    let paired = Seq::new(
        pairs.len(),
        |i: int|
            if left {
                pairs[i].0
            } else {
                pairs[i].1
            },
    );
    match remainder {
        Some(PairRemainderV::Left(rest)) => if left {
            paired + rest
        } else {
            paired
        },
        Some(PairRemainderV::Right(rest)) => if left {
            paired
        } else {
            paired + rest
        },
        None => paired,
    }
}

/// Pairing two sequences from the front loses nothing: the pairs and the remainder give both
/// sequences back.
pub proof fn law_prefix_recomposes(left: Seq<TermV>, right: Seq<TermV>)
    ensures
        side_after(prefix_pairs(left, right), prefix_remainder(left, right), true) == left,
        side_after(prefix_pairs(left, right), prefix_remainder(left, right), false) == right,
{
    assert(side_after(prefix_pairs(left, right), prefix_remainder(left, right), true) =~= left);
    assert(side_after(prefix_pairs(left, right), prefix_remainder(left, right), false) =~= right);
}

/// The remainder of one side and then the items of that side of the pairs.
pub open spec fn side_before(
    pairs: Seq<(TermV, TermV)>,
    remainder: Option<PairRemainderV>,
    left: bool,
) -> Seq<TermV> {
    let paired = Seq::new(
        pairs.len(),
        |i: int|
            if left {
                pairs[i].0
            } else {
                pairs[i].1
            },
    );
    match remainder {
        Some(PairRemainderV::Left(rest)) => if left {
            rest + paired
        } else {
            paired
        },
        Some(PairRemainderV::Right(rest)) => if left {
            paired
        } else {
            rest + paired
        },
        None => paired,
    }
}

/// Pairing two sequences from the back loses nothing either.
pub proof fn law_suffix_recomposes(left: Seq<TermV>, right: Seq<TermV>)
    ensures
        side_before(suffix_pairs(left, right), suffix_remainder(left, right), true) == left,
        side_before(suffix_pairs(left, right), suffix_remainder(left, right), false) == right,
{
    assert(side_before(suffix_pairs(left, right), suffix_remainder(left, right), true) =~= left);
    assert(side_before(suffix_pairs(left, right), suffix_remainder(left, right), false) =~= right);
}

/// Copies of the items from `from` to `to`.
pub(crate) fn copy_range(items: &Vec<Term>, from: usize, to: usize) -> (result: Vec<Term>)
    requires
        from <= to <= items.len(),
    ensures
        deep(result@) == deep(items@).subrange(from as int, to as int),
{
    let mut result: Vec<Term> = Vec::new();
    let mut i: usize = from;
    while i < to
        invariant
            from <= i <= to,
            to <= items.len(),
            result.len() == i - from,
            forall|j: int| 0 <= j < i - from ==> (#[trigger] result[j])@ == items[from + j]@,
        decreases to - i,
    {
        result.push(items[i].duplicate());
        i += 1;
    }
    assert(deep(result@) =~= deep(items@).subrange(from as int, to as int));
    result
}

/// Pair the items in the same position, counted from the front.
pub(crate) fn pair_prefix(left: &Vec<Term>, right: &Vec<Term>) -> (result: (
    Vec<(Term, Term)>,
    Option<PairRemainder>,
))
    ensures
        deep(result.0@) == prefix_pairs(deep(left@), deep(right@)),
        result.1.deep_view() == prefix_remainder(deep(left@), deep(right@)),
{
    let common: usize = if left.len() <= right.len() {
        left.len()
    } else {
        right.len()
    };
    let mut pairs: Vec<(Term, Term)> = Vec::new();
    let mut i: usize = 0;
    while i < common
        invariant
            i <= common,
            common <= left.len(),
            common <= right.len(),
            pairs.len() == i,
            forall|j: int|
                0 <= j < i ==> (#[trigger] pairs[j]).0@ == left[j]@ && pairs[j].1@ == right[j]@,
        decreases common - i,
    {
        pairs.push((left[i].duplicate(), right[i].duplicate()));
        i += 1;
    }
    assert(deep(pairs@) =~= prefix_pairs(deep(left@), deep(right@)));
    let remainder = if left.len() > common {
        Some(PairRemainder::Left(copy_range(left, common, left.len())))
    } else if right.len() > common {
        Some(PairRemainder::Right(copy_range(right, common, right.len())))
    } else {
        None
    };
    (pairs, remainder)
}

/// Pair the items in the same position, counted from the back.
pub(crate) fn pair_suffix(left: &Vec<Term>, right: &Vec<Term>) -> (result: (
    Vec<(Term, Term)>,
    Option<PairRemainder>,
))
    ensures
        deep(result.0@) == suffix_pairs(deep(left@), deep(right@)),
        result.1.deep_view() == suffix_remainder(deep(left@), deep(right@)),
{
    let common: usize = if left.len() <= right.len() {
        left.len()
    } else {
        right.len()
    };
    let left_start: usize = left.len() - common;
    let right_start: usize = right.len() - common;
    let mut pairs: Vec<(Term, Term)> = Vec::new();
    let mut i: usize = 0;
    while i < common
        invariant
            i <= common,
            left_start + common == left.len(),
            right_start + common == right.len(),
            pairs.len() == i,
            forall|j: int|
                0 <= j < i ==> (#[trigger] pairs[j]).0@ == left[left_start + j]@ && pairs[j].1@
                    == right[right_start + j]@,
        decreases common - i,
    {
        pairs.push((left[left_start + i].duplicate(), right[right_start + i].duplicate()));
        i += 1;
    }
    assert(deep(pairs@) =~= suffix_pairs(deep(left@), deep(right@)));
    let remainder = if left.len() > common {
        Some(PairRemainder::Left(copy_range(left, 0, left_start)))
    } else if right.len() > common {
        Some(PairRemainder::Right(copy_range(right, 0, right_start)))
    } else {
        None
    };
    (pairs, remainder)
}

// ---------------------------------------------------------------------------------------------
// Lists
// ---------------------------------------------------------------------------------------------
/// The opaque part of a list and the items behind it.
pub type ListRestV = Option<(TermV, Seq<TermV>)>;

/// The list of `heads` and what comes behind them.
pub open spec fn open_list(
    definition: CollectionDefinitionV,
    heads: Seq<TermV>,
    rest: ListRestV,
) -> TermV {
    match rest {
        Some((middle, tails)) => list_term(definition, heads, Some(Box::new(middle)), tails),
        None => list_term(definition, heads, None, Seq::empty()),
    }
}

pub(crate) fn make_list(
    definition: &CollectionDefinition,
    heads: Vec<Term>,
    rest: Option<(Term, Vec<Term>)>,
) -> (result: Term)
    ensures
        result@ == open_list(definition@, deep(heads@), rest.deep_view()),
{
    match rest {
        Some((middle, tails)) => Term::list(definition.duplicate(), heads, Some(middle), tails),
        None => Term::list(definition.duplicate(), heads, None, Vec::new()),
    }
}

/// What the parts of two lists behind their common heads come down to: the progress after pairs
/// were left open, and pairs to be matched.
pub open spec fn list_rest_step(
    mode: MatchMode,
    progress: ProgressV,
    definition: CollectionDefinitionV,
    pattern_rest: ListRestV,
    subject_rest: ListRestV,
    remainder: Option<PairRemainderV>,
) -> Result<(ProgressV, Seq<(TermV, TermV)>), FailReasonV> {
    let none = Seq::<TermV>::empty();
    let empty = open_list(definition, none, None);
    match (pattern_rest, subject_rest) {
        (None, None) => match remainder {
            None => Ok((progress, Seq::empty())),
            Some(PairRemainderV::Left(heads)) => Err(
                FailReasonV::DifferentValues(open_list(definition, heads, None), empty),
            ),
            Some(PairRemainderV::Right(heads)) => Err(
                FailReasonV::DifferentValues(empty, open_list(definition, heads, None)),
            ),
        },
        (None, Some(rest)) => {
            let (left, right) = match remainder {
                Some(PairRemainderV::Left(heads)) => (
                    open_list(definition, heads, None),
                    open_list(definition, none, Some(rest)),
                ),
                Some(PairRemainderV::Right(heads)) => (
                    empty,
                    open_list(definition, heads, Some(rest)),
                ),
                None => (empty, open_list(definition, none, Some(rest))),
            };
            if mode is Rewrite && !(remainder is Some && remainder->0 is Right) {
                Ok((deferred(progress, left, right), Seq::empty()))
            } else {
                Err(FailReasonV::DifferentValues(left, right))
            }
        },
        (Some((middle, tails)), None) => match remainder {
            None => if tails.len() == 0 {
                Ok((progress, seq![(middle, empty)]))
            } else {
                Err(
                    FailReasonV::DifferentValues(
                        open_list(definition, none, Some((middle, tails))),
                        empty,
                    ),
                )
            },
            Some(PairRemainderV::Left(heads)) => Err(
                FailReasonV::DifferentValues(
                    open_list(definition, heads, Some((middle, tails))),
                    empty,
                ),
            ),
            Some(PairRemainderV::Right(heads)) => match suffix_remainder(tails, heads) {
                None => Ok((progress, seq![(middle, empty)] + suffix_pairs(tails, heads))),
                Some(PairRemainderV::Left(extra)) => Err(
                    FailReasonV::DifferentValues(
                        open_list(definition, none, Some((middle, extra))),
                        empty,
                    ),
                ),
                Some(PairRemainderV::Right(extra)) => Ok(
                    (
                        progress,
                        seq![(middle, open_list(definition, extra, None))] + suffix_pairs(
                            tails,
                            heads,
                        ),
                    ),
                ),
            },
        },
        (Some((middle, tails)), Some((subject_middle, subject_tails))) => match remainder {
            Some(PairRemainderV::Left(heads)) => Ok(
                (
                    deferred(
                        progress,
                        open_list(definition, heads, Some((middle, tails))),
                        open_list(definition, none, Some((subject_middle, subject_tails))),
                    ),
                    Seq::empty(),
                ),
            ),
            _ => {
                let heads = match remainder {
                    Some(PairRemainderV::Right(heads)) => heads,
                    _ => none,
                };
                match suffix_remainder(tails, subject_tails) {
                    None => Ok(
                        (
                            progress,
                            seq![
                                (
                                    middle,
                                    open_list(definition, heads, Some((subject_middle, none))),
                                ),
                            ] + suffix_pairs(tails, subject_tails),
                        ),
                    ),
                    Some(PairRemainderV::Left(extra)) => Ok(
                        (
                            deferred(
                                progress,
                                open_list(definition, none, Some((middle, extra))),
                                open_list(definition, heads, Some((subject_middle, none))),
                            ),
                            Seq::empty(),
                        ),
                    ),
                    Some(PairRemainderV::Right(extra)) => Ok(
                        (
                            progress,
                            seq![
                                (
                                    middle,
                                    open_list(definition, heads, Some((subject_middle, extra))),
                                ),
                            ] + suffix_pairs(tails, subject_tails),
                        ),
                    ),
                }
            },
        },
    }
}

/// The step that matches two lists of the same definition.
pub open spec fn lists_step(
    mode: MatchMode,
    progress: ProgressV,
    definition: CollectionDefinitionV,
    pattern_heads: Seq<TermV>,
    pattern_rest: ListRestV,
    subject_heads: Seq<TermV>,
    subject_rest: ListRestV,
) -> Step {
    match list_rest_step(
        mode,
        progress,
        definition,
        pattern_rest,
        subject_rest,
        prefix_remainder(pattern_heads, subject_heads),
    ) {
        Ok((progress, pairs)) => Ok(
            enqueued_all(progress, prefix_pairs(pattern_heads, subject_heads) + pairs),
        ),
        Err(reason) => Err(reason),
    }
}

fn one_pair(left: Term, right: Term) -> (result: Vec<(Term, Term)>)
    ensures
        deep(result@) == seq![(left@, right@)],
{
    let mut result: Vec<(Term, Term)> = Vec::new();
    result.push((left, right));
    assert(deep(result@) =~= seq![(left@, right@)]);
    result
}

fn prepend(left: Term, right: Term, pairs: Vec<(Term, Term)>) -> (result: Vec<(Term, Term)>)
    ensures
        deep(result@) == seq![(left@, right@)] + deep(pairs@),
{
    let mut pairs = pairs;
    let mut result = one_pair(left, right);
    result.append(&mut pairs);
    result
}

/// The view of what a step on the rests gives.
pub open spec fn pairs_view(
    result: Result<Vec<(Term, Term)>, FailReason>,
    progress: Progress,
) -> Result<(ProgressV, Seq<(TermV, TermV)>), FailReasonV> {
    match result {
        Ok(pairs) => Ok((progress@, deep(pairs@))),
        Err(reason) => Err(reason@),
    }
}

fn match_list_rests(
    mode: MatchMode,
    progress: &mut Progress,
    definition: &CollectionDefinition,
    pattern_rest: Option<(Term, Vec<Term>)>,
    subject_rest: Option<(Term, Vec<Term>)>,
    remainder: Option<PairRemainder>,
) -> (result: Result<Vec<(Term, Term)>, FailReason>)
    ensures
        result is Err ==> final(progress)@ == old(progress)@,
        pairs_view(result, *final(progress)) == list_rest_step(
            mode,
            old(progress)@,
            definition@,
            pattern_rest.deep_view(),
            subject_rest.deep_view(),
            remainder.deep_view(),
        ),
{
    match (pattern_rest, subject_rest) {
        (None, None) => {
            let empty = make_list(definition, Vec::new(), None);
            match remainder {
                None => Ok(Vec::new()),
                Some(PairRemainder::Left(heads)) => Err(
                    FailReason::DifferentValues(make_list(definition, heads, None), empty),
                ),
                Some(PairRemainder::Right(heads)) => Err(
                    FailReason::DifferentValues(empty, make_list(definition, heads, None)),
                ),
            }
        },
        (None, Some(rest)) => {
            let narrowable: bool = matches!(mode, MatchMode::Rewrite) && !matches!(
                remainder,
                Some(PairRemainder::Right(_))
            );
            let (left, right) = match remainder {
                Some(PairRemainder::Left(heads)) => (
                    make_list(definition, heads, None),
                    make_list(definition, Vec::new(), Some(rest)),
                ),
                Some(PairRemainder::Right(heads)) => (
                    make_list(definition, Vec::new(), None),
                    make_list(definition, heads, Some(rest)),
                ),
                None => (
                    make_list(definition, Vec::new(), None),
                    make_list(definition, Vec::new(), Some(rest)),
                ),
            };
            if narrowable {
                progress.defer(left, right);
                Ok(Vec::new())
            } else {
                Err(FailReason::DifferentValues(left, right))
            }
        },
        (Some((middle, tails)), None) => {
            let empty = make_list(definition, Vec::new(), None);
            match remainder {
                None => {
                    if tails.len() == 0 {
                        Ok(one_pair(middle, empty))
                    } else {
                        Err(
                            FailReason::DifferentValues(
                                make_list(definition, Vec::new(), Some((middle, tails))),
                                empty,
                            ),
                        )
                    }
                },
                Some(PairRemainder::Left(heads)) => Err(
                    FailReason::DifferentValues(
                        make_list(definition, heads, Some((middle, tails))),
                        empty,
                    ),
                ),
                Some(PairRemainder::Right(heads)) => {
                    let (pairs, tail_remainder) = pair_suffix(&tails, &heads);
                    match tail_remainder {
                        None => Ok(prepend(middle, empty, pairs)),
                        Some(PairRemainder::Left(extra)) => Err(
                            FailReason::DifferentValues(
                                make_list(definition, Vec::new(), Some((middle, extra))),
                                empty,
                            ),
                        ),
                        Some(PairRemainder::Right(extra)) => Ok(
                            prepend(middle, make_list(definition, extra, None), pairs),
                        ),
                    }
                },
            }
        },
        (Some((middle, tails)), Some((subject_middle, subject_tails))) => match remainder {
            Some(PairRemainder::Left(heads)) => {
                progress.defer(
                    make_list(definition, heads, Some((middle, tails))),
                    make_list(definition, Vec::new(), Some((subject_middle, subject_tails))),
                );
                Ok(Vec::new())
            },
            remainder => {
                let heads: Vec<Term> = match remainder {
                    Some(PairRemainder::Right(heads)) => heads,
                    _ => Vec::new(),
                };
                let (pairs, tail_remainder) = pair_suffix(&tails, &subject_tails);
                match tail_remainder {
                    None => Ok(
                        prepend(
                            middle,
                            make_list(definition, heads, Some((subject_middle, Vec::new()))),
                            pairs,
                        ),
                    ),
                    Some(PairRemainder::Left(extra)) => {
                        progress.defer(
                            make_list(definition, Vec::new(), Some((middle, extra))),
                            make_list(definition, heads, Some((subject_middle, Vec::new()))),
                        );
                        Ok(Vec::new())
                    },
                    Some(PairRemainder::Right(extra)) => Ok(
                        prepend(
                            middle,
                            make_list(definition, heads, Some((subject_middle, extra))),
                            pairs,
                        ),
                    ),
                }
            },
        },
    }
}

pub(crate) fn match_lists(
    mode: MatchMode,
    progress: &mut Progress,
    definition: &CollectionDefinition,
    pattern_heads: &Vec<Term>,
    pattern_rest: Option<(Term, Vec<Term>)>,
    subject_heads: &Vec<Term>,
    subject_rest: Option<(Term, Vec<Term>)>,
) -> (result: Result<(), FailReason>)
    ensures
        result is Err ==> final(progress)@ == old(progress)@,
        step_view(result, *final(progress)) == lists_step(
            mode,
            old(progress)@,
            definition@,
            deep(pattern_heads@),
            pattern_rest.deep_view(),
            deep(subject_heads@),
            subject_rest.deep_view(),
        ),
{
    let (mut problems, remainder) = pair_prefix(pattern_heads, subject_heads);
    let mut rest = match match_list_rests(
        mode,
        progress,
        definition,
        pattern_rest,
        subject_rest,
        remainder,
    ) {
        Ok(rest) => rest,
        Err(reason) => {
            return Err(reason);
        },
    };
    problems.append(&mut rest);
    progress.enqueue_all(problems);
    Ok(())
}

// ---------------------------------------------------------------------------------------------
// Maps
// ---------------------------------------------------------------------------------------------
/// The entries with `substitution` applied to their keys.
pub open spec fn keys_substituted(
    entries: Seq<(TermV, TermV)>,
    substitution: SubstitutionV,
) -> Seq<(TermV, TermV)> {
    Seq::new(entries.len(), |i: int| (substituted(entries[i].0, substitution), entries[i].1))
}

/// The keys of `entries`.
pub open spec fn keys_of(entries: Seq<(TermV, TermV)>) -> Seq<TermV> {
    Seq::new(entries.len(), |i: int| entries[i].0)
}

/// Whether two entries have the key `key`.
pub open spec fn repeated(entries: Seq<(TermV, TermV)>, key: TermV) -> bool {
    exists|i: int, j: int|
        0 <= i < j < entries.len() && (#[trigger] entries[i]).0 == key && (
        #[trigger] entries[j]).0 == key
}

/// The first of `keys`, from `from` on, that two entries have.
pub open spec fn repeated_from(
    entries: Seq<(TermV, TermV)>,
    keys: Seq<TermV>,
    from: int,
) -> Option<TermV>
    decreases keys.len() - from,
{
    if from >= keys.len() {
        None
    } else if repeated(entries, keys[from]) {
        Some(keys[from])
    } else {
        repeated_from(entries, keys, from + 1)
    }
}

/// The least key that two entries have.
pub open spec fn repeated_key(entries: Seq<(TermV, TermV)>) -> Option<TermV> {
    repeated_from(entries, sorted::<Term>(keys_of(entries)), 0)
}

/// The pairs of values that `left`, of which the first `count` entries are looked at, and `right`
/// have for the same key.
pub open spec fn common_values(
    left: Seq<(TermV, TermV)>,
    right: Seq<(TermV, TermV)>,
    count: int,
) -> Seq<(TermV, TermV)>
    decreases count,
{
    if count <= 0 {
        Seq::empty()
    } else {
        let before = common_values(left, right, count - 1);
        match assoc(right, left[count - 1].0) {
            Some(value) => before.push((left[count - 1].1, value)),
            None => before,
        }
    }
}

/// The first `count` entries of `left` whose key `right` does not have.
pub open spec fn unmatched(
    left: Seq<(TermV, TermV)>,
    right: Seq<(TermV, TermV)>,
    count: int,
) -> Seq<(TermV, TermV)>
    decreases count,
{
    if count <= 0 {
        Seq::empty()
    } else {
        let before = unmatched(left, right, count - 1);
        if assoc(right, left[count - 1].0) is Some {
            before
        } else {
            before.push(left[count - 1])
        }
    }
}

/// The first `count` entries whose key is constructor-like, or is not.
pub open spec fn with_keys(
    entries: Seq<(TermV, TermV)>,
    concrete: bool,
    count: int,
) -> Seq<(TermV, TermV)>
    decreases count,
{
    if count <= 0 {
        Seq::empty()
    } else {
        let before = with_keys(entries, concrete, count - 1);
        if constructor_like(entries[count - 1].0) == concrete {
            before.push(entries[count - 1])
        } else {
            before
        }
    }
}

/// The entries of a map that have no counterpart.
pub open spec fn map_remainder(
    entries: Seq<(TermV, TermV)>,
    rest: Option<TermV>,
) -> MapRemainderV {
    MapRemainderV {
        concrete: with_keys(entries, true, entries.len() as int),
        symbolic: with_keys(entries, false, entries.len() as int),
        rest,
    }
}

/// The map of a remainder.
pub open spec fn remainder_map(
    definition: CollectionDefinitionV,
    remainder: MapRemainderV,
) -> TermV {
    map_term(definition, remainder.concrete + remainder.symbolic, boxed_rest(remainder.rest))
}

/// Whether nothing is left of a map.
pub open spec fn nothing_left(remainder: MapRemainderV) -> bool {
    remainder.concrete.len() == 0 && remainder.symbolic.len() == 0 && remainder.rest is None
}

/// What two remainders of maps come down to.
pub open spec fn remainders_step(
    mode: MatchMode,
    progress: ProgressV,
    definition: CollectionDefinitionV,
    pattern: MapRemainderV,
    subject: MapRemainderV,
) -> Result<(ProgressV, Seq<(TermV, TermV)>), FailReasonV> {
    let pattern_map = remainder_map(definition, pattern);
    let subject_map = remainder_map(definition, subject);
    let left_open: Result<(ProgressV, Seq<(TermV, TermV)>), FailReasonV> = Ok(
        (deferred(progress, pattern_map, subject_map), Seq::empty()),
    );
    if pattern.concrete.len() > 0 {
        if subject.symbolic.len() == 0 {
            Err(FailReasonV::KeyNotFound(pattern.concrete[0].0, subject_map))
        } else {
            left_open
        }
    } else if pattern.symbolic.len() == 0 && pattern.rest is None {
        if nothing_left(subject) {
            Ok((progress, Seq::empty()))
        } else if mode is Rewrite && subject.rest is Some {
            left_open
        } else {
            Err(FailReasonV::DifferentSymbols(pattern_map, subject_map))
        }
    } else if pattern.symbolic.len() == 1 && subject.concrete.len() + subject.symbolic.len() == 1
        && subject.rest is None {
        let entry = if subject.concrete.len() > 0 {
            subject.concrete[0]
        } else {
            subject.symbolic[0]
        };
        let pairs = seq![
            (pattern.symbolic[0].0, entry.0),
            (pattern.symbolic[0].1, entry.1),
        ];
        Ok(
            (
                progress,
                match pattern.rest {
                    Some(rest) => pairs.push((rest, map_term(definition, Seq::empty(), None))),
                    None => pairs,
                },
            ),
        )
    } else if pattern.symbolic.len() > 0 {
        if nothing_left(subject) || (pattern.rest is None && !(mode is Rewrite)
            && subject.concrete.len() == 0 && subject.symbolic.len() == 0 && subject.rest is Some
            && subject.rest->0 is Variable) {
            Err(FailReasonV::DifferentSymbols(pattern_map, subject_map))
        } else {
            left_open
        }
    } else {
        Ok((progress, seq![(pattern.rest->0, subject_map)]))
    }
}

/// Whether the rest of a collection is a concatenation that cannot be taken apart.
pub open spec fn opaque_rest(definition: CollectionDefinitionV, rest: Option<TermV>) -> bool {
    rest is Some && is_concat(rest->0, definition.concat)
}

/// The step that matches two maps of the same definition.
pub open spec fn maps_step(
    mode: MatchMode,
    progress: ProgressV,
    definition: CollectionDefinitionV,
    pattern_entries: Seq<(TermV, TermV)>,
    pattern_rest: Option<TermV>,
    subject_entries: Seq<(TermV, TermV)>,
    subject_rest: Option<TermV>,
) -> Step {
    let entries = keys_substituted(pattern_entries, progress.substitution);
    let pattern_map = map_term(definition, entries, boxed_rest(pattern_rest));
    let subject_map = map_term(definition, subject_entries, boxed_rest(subject_rest));
    match (repeated_key(entries), repeated_key(subject_entries)) {
        (Some(key), _) => Err(FailReasonV::DuplicateKeys(key, pattern_map)),
        (None, Some(key)) => Err(FailReasonV::DuplicateKeys(key, subject_map)),
        (None, None) => if opaque_rest(definition, pattern_rest) || opaque_rest(
            definition,
            subject_rest,
        ) {
            Ok(deferred(progress, pattern_map, subject_map))
        } else {
            let left = collected::<Term, TermV>(entries);
            let right = collected::<Term, TermV>(subject_entries);
            match remainders_step(
                mode,
                progress,
                definition,
                map_remainder(unmatched(left, right, left.len() as int), pattern_rest),
                map_remainder(unmatched(right, left, right.len() as int), subject_rest),
            ) {
                Ok((progress, pairs)) => Ok(
                    enqueued_all(progress, common_values(left, right, left.len() as int) + pairs),
                ),
                Err(reason) => Err(reason),
            }
        },
    }
}

fn substitute_keys(entries: &Vec<(Term, Term)>, substitution: &Substitution) -> (result: Vec<
    (Term, Term),
>)
    ensures
        deep(result@) == keys_substituted(deep(entries@), substitution@),
{
    let mut result: Vec<(Term, Term)> = Vec::new();
    let mut i: usize = 0;
    while i < entries.len()
        invariant
            i <= entries.len(),
            result.len() == i,
            forall|j: int|
                0 <= j < i ==> (#[trigger] result[j]).0@ == substituted(
                    entries[j].0@,
                    substitution@,
                ) && result[j].1@ == entries[j].1@,
        decreases entries.len() - i,
    {
        result.push((substitute(&entries[i].0, substitution), entries[i].1.duplicate()));
        i += 1;
    }
    assert(deep(result@) =~= keys_substituted(deep(entries@), substitution@));
    result
}

fn is_repeated(entries: &Vec<(Term, Term)>, key: &Term) -> (result: bool)
    ensures
        result == repeated(deep(entries@), key@),
{
    let mut seen: bool = false;
    let ghost mut first: int = 0;
    let mut i: usize = 0;
    while i < entries.len()
        invariant
            i <= entries.len(),
            seen ==> 0 <= first < i && entries[first].0@ == key@,
            seen ==> forall|j: int|
                0 <= j < i && j != first ==> (#[trigger] entries[j]).0@ != key@,
            !seen ==> forall|j: int| 0 <= j < i ==> (#[trigger] entries[j]).0@ != key@,
        decreases entries.len() - i,
    {
        if entries[i].0.equals(key) {
            if seen {
                assert(deep(entries@)[first].0 == key@);
                assert(deep(entries@)[i as int].0 == key@);
                return true;
            }
            seen = true;
            proof {
                first = i as int;
            }
        }
        i += 1;
    }
    assert(!repeated(deep(entries@), key@)) by {
        if repeated(deep(entries@), key@) {
            let (a, b) = choose|a: int, b: int|
                0 <= a < b < deep(entries@).len() && (#[trigger] deep(entries@)[a]).0 == key@ && (
                #[trigger] deep(entries@)[b]).0 == key@;
            assert(entries[a].0@ == key@);
            assert(entries[b].0@ == key@);
        }
    }
    false
}

fn find_repeated_key(entries: &Vec<(Term, Term)>) -> (result: Option<Term>)
    ensures
        result.deep_view() == repeated_key(deep(entries@)),
{
    let mut keys: Vec<Term> = Vec::new();
    let mut i: usize = 0;
    while i < entries.len()
        invariant
            i <= entries.len(),
            keys.len() == i,
            forall|j: int| 0 <= j < i ==> (#[trigger] keys[j])@ == entries[j].0@,
        decreases entries.len() - i,
    {
        keys.push(entries[i].0.duplicate());
        i += 1;
    }
    assert(deep(keys@) =~= keys_of(deep(entries@)));
    let keys = into_sorted(&keys);
    let mut k: usize = 0;
    while k < keys.len()
        invariant
            k <= keys.len(),
            deep(keys@) == sorted::<Term>(keys_of(deep(entries@))),
            repeated_key(deep(entries@)) == repeated_from(deep(entries@), deep(keys@), k as int),
        decreases keys.len() - k,
    {
        assert(deep(keys@)[k as int] == keys[k as int]@);
        if is_repeated(entries, &keys[k]) {
            return Some(keys[k].duplicate());
        }
        k += 1;
    }
    None
}

fn pair_common_values(left: &Vec<(Term, Term)>, right: &Vec<(Term, Term)>) -> (result: Vec<
    (Term, Term),
>)
    ensures
        deep(result@) == common_values(deep(left@), deep(right@), left@.len() as int),
{
    let mut result: Vec<(Term, Term)> = Vec::new();
    let mut i: usize = 0;
    while i < left.len()
        invariant
            i <= left.len(),
            deep(result@) == common_values(deep(left@), deep(right@), i as int),
        decreases left.len() - i,
    {
        assert(deep(left@)[i as int] == (left[i as int].0@, left[i as int].1@));
        if let Some(value) = assoc_get(right, &left[i].0) {
            result.push((left[i].1.duplicate(), value.duplicate()));
        }
        i += 1;
    }
    result
}

pub(crate) fn without_common_keys(left: &Vec<(Term, Term)>, right: &Vec<(Term, Term)>) -> (result: Vec<
    (Term, Term),
>)
    ensures
        deep(result@) == unmatched(deep(left@), deep(right@), left@.len() as int),
{
    let mut result: Vec<(Term, Term)> = Vec::new();
    let mut i: usize = 0;
    while i < left.len()
        invariant
            i <= left.len(),
            deep(result@) == unmatched(deep(left@), deep(right@), i as int),
        decreases left.len() - i,
    {
        assert(deep(left@)[i as int] == (left[i as int].0@, left[i as int].1@));
        if assoc_get(right, &left[i].0).is_none() {
            result.push(left[i].duplicate());
        }
        i += 1;
    }
    result
}

fn keep_keys(entries: &Vec<(Term, Term)>, concrete: bool) -> (result: Vec<(Term, Term)>)
    ensures
        deep(result@) == with_keys(deep(entries@), concrete, entries@.len() as int),
{
    let mut result: Vec<(Term, Term)> = Vec::new();
    let mut i: usize = 0;
    while i < entries.len()
        invariant
            i <= entries.len(),
            deep(result@) == with_keys(deep(entries@), concrete, i as int),
        decreases entries.len() - i,
    {
        assert(deep(entries@)[i as int] == (entries[i as int].0@, entries[i as int].1@));
        if entries[i].0.is_constructor_like() == concrete {
            result.push(entries[i].duplicate());
        }
        i += 1;
    }
    result
}

impl MapRemainder {
    fn new(entries: &Vec<(Term, Term)>, rest: Option<Term>) -> (result: Self)
        ensures
            result@ == map_remainder(deep(entries@), rest.deep_view()),
    {
        MapRemainder {
            concrete: keep_keys(entries, true),
            symbolic: keep_keys(entries, false),
            rest,
        }
    }

    fn is_empty(&self) -> (result: bool)
        ensures
            result == nothing_left(self@),
    {
        self.concrete.len() == 0 && self.symbolic.len() == 0 && self.rest.is_none()
    }

    fn to_term(&self, definition: &CollectionDefinition) -> (result: Term)
        ensures
            result@ == remainder_map(definition@, self@),
    {
        broadcast use lemma_optional_view;

        let mut entries = self.concrete.duplicate();
        let mut symbolic = self.symbolic.duplicate();
        entries.append(&mut symbolic);
        Term::map(definition.duplicate(), entries, self.rest.duplicate())
    }
}

fn match_map_remainders(
    mode: MatchMode,
    progress: &mut Progress,
    definition: &CollectionDefinition,
    pattern: MapRemainder,
    subject: MapRemainder,
) -> (result: Result<Vec<(Term, Term)>, FailReason>)
    ensures
        result is Err ==> final(progress)@ == old(progress)@,
        pairs_view(result, *final(progress)) == remainders_step(
            mode,
            old(progress)@,
            definition@,
            pattern@,
            subject@,
        ),
{
    broadcast use lemma_optional_view;

    if pattern.concrete.len() > 0 {
        assert(pattern@.concrete[0].0 == pattern.concrete[0].0@);
        if subject.symbolic.len() == 0 {
            return Err(
                FailReason::KeyNotFound(
                    pattern.concrete[0].0.duplicate(),
                    subject.to_term(definition),
                ),
            );
        }
        progress.defer(pattern.to_term(definition), subject.to_term(definition));
        return Ok(Vec::new());
    }
    if pattern.symbolic.len() == 0 && pattern.rest.is_none() {
        if subject.is_empty() {
            return Ok(Vec::new());
        }
        if matches!(mode, MatchMode::Rewrite) && subject.rest.is_some() {
            progress.defer(pattern.to_term(definition), subject.to_term(definition));
            return Ok(Vec::new());
        }
        return Err(
            FailReason::DifferentSymbols(pattern.to_term(definition), subject.to_term(definition)),
        );
    }
    let single: bool = (subject.concrete.len() == 1 && subject.symbolic.len() == 0) || (
    subject.concrete.len() == 0 && subject.symbolic.len() == 1);
    if pattern.symbolic.len() == 1 && single && subject.rest.is_none() {
        let (key, value) = if subject.concrete.len() > 0 {
            subject.concrete[0].duplicate()
        } else {
            subject.symbolic[0].duplicate()
        };
        proof {
            assert(pattern@.symbolic[0] == (pattern.symbolic[0].0@, pattern.symbolic[0].1@));
            if subject.concrete.len() > 0 {
                assert(subject@.concrete[0] == (subject.concrete[0].0@, subject.concrete[0].1@));
            } else {
                assert(subject@.symbolic[0] == (subject.symbolic[0].0@, subject.symbolic[0].1@));
            }
        }
        let mut pairs: Vec<(Term, Term)> = Vec::new();
        pairs.push((pattern.symbolic[0].0.duplicate(), key));
        pairs.push((pattern.symbolic[0].1.duplicate(), value));
        assert(deep(pairs@) =~= seq![
            (pattern@.symbolic[0].0, key@),
            (pattern@.symbolic[0].1, value@),
        ]);
        if let Some(rest) = pattern.rest {
            pairs.push((rest, Term::map(definition.duplicate(), Vec::new(), None)));
        }
        return Ok(pairs);
    }
    if pattern.symbolic.len() > 0 {
        let variable_rest: bool = match &subject.rest {
            Some(rest) => is_variable(rest),
            None => false,
        };
        if subject.is_empty() || (pattern.rest.is_none() && !matches!(mode, MatchMode::Rewrite)
            && subject.concrete.len() == 0 && subject.symbolic.len() == 0 && variable_rest) {
            return Err(
                FailReason::DifferentSymbols(
                    pattern.to_term(definition),
                    subject.to_term(definition),
                ),
            );
        }
        progress.defer(pattern.to_term(definition), subject.to_term(definition));
        return Ok(Vec::new());
    }
    match pattern.rest {
        Some(rest) => Ok(one_pair(rest, subject.to_term(definition))),
        None => Ok(Vec::new()),
    }
}

fn is_opaque_rest(definition: &CollectionDefinition, rest: &Option<Term>) -> (result: bool)
    ensures
        result == opaque_rest(definition@, rest.deep_view()),
{
    match rest {
        Some(rest) => is_opaque_concat(rest, &definition.concat),
        None => false,
    }
}

pub(crate) fn match_maps(
    mode: MatchMode,
    progress: &mut Progress,
    definition: &CollectionDefinition,
    pattern_entries: &Vec<(Term, Term)>,
    pattern_rest: Option<Term>,
    subject_entries: &Vec<(Term, Term)>,
    subject_rest: Option<Term>,
) -> (result: Result<(), FailReason>)
    ensures
        result is Err ==> final(progress)@ == old(progress)@,
        step_view(result, *final(progress)) == maps_step(
            mode,
            old(progress)@,
            definition@,
            deep(pattern_entries@),
            pattern_rest.deep_view(),
            deep(subject_entries@),
            subject_rest.deep_view(),
        ),
{
    broadcast use lemma_optional_view;

    let entries = substitute_keys(pattern_entries, &progress.substitution);
    if let Some(key) = find_repeated_key(&entries) {
        return Err(
            FailReason::DuplicateKeys(
                key,
                Term::map(definition.duplicate(), entries, pattern_rest),
            ),
        );
    }
    if let Some(key) = find_repeated_key(subject_entries) {
        return Err(
            FailReason::DuplicateKeys(
                key,
                Term::map(definition.duplicate(), subject_entries.duplicate(), subject_rest),
            ),
        );
    }
    if is_opaque_rest(definition, &pattern_rest) || is_opaque_rest(definition, &subject_rest) {
        progress.defer(
            Term::map(definition.duplicate(), entries, pattern_rest),
            Term::map(definition.duplicate(), subject_entries.duplicate(), subject_rest),
        );
        return Ok(());
    }
    let left = collect_assoc(&entries);
    let right = collect_assoc(subject_entries);
    let mut problems = pair_common_values(&left, &right);
    let pattern = MapRemainder::new(&without_common_keys(&left, &right), pattern_rest);
    let subject = MapRemainder::new(&without_common_keys(&right, &left), subject_rest);
    let mut rest = match match_map_remainders(mode, progress, definition, pattern, subject) {
        Ok(rest) => rest,
        Err(reason) => {
            return Err(reason);
        },
    };
    problems.append(&mut rest);
    progress.enqueue_all(problems);
    Ok(())
}

// ---------------------------------------------------------------------------------------------
// Sets
// ---------------------------------------------------------------------------------------------
/// The terms with `substitution` applied.
pub open spec fn all_substituted(terms: Seq<TermV>, substitution: SubstitutionV) -> Seq<TermV> {
    Seq::new(terms.len(), |i: int| substituted(terms[i], substitution))
}

pub(crate) fn substitute_all(terms: &Vec<Term>, substitution: &Substitution) -> (result: Vec<Term>)
    ensures
        deep(result@) == all_substituted(deep(terms@), substitution@),
{
    let mut result: Vec<Term> = Vec::new();
    let mut i: usize = 0;
    while i < terms.len()
        invariant
            i <= terms.len(),
            result.len() == i,
            forall|j: int|
                0 <= j < i ==> (#[trigger] result[j])@ == substituted(terms[j]@, substitution@),
        decreases terms.len() - i,
    {
        result.push(substitute(&terms[i], substitution));
        i += 1;
    }
    assert(deep(result@) =~= all_substituted(deep(terms@), substitution@));
    result
}

/// The first of `terms`, from `from` on, that is constructor-like, or is not.
pub open spec fn first_with(terms: Seq<TermV>, concrete: bool, from: int) -> Option<TermV>
    decreases terms.len() - from,
{
    if from >= terms.len() {
        None
    } else if constructor_like(terms[from]) == concrete {
        Some(terms[from])
    } else {
        first_with(terms, concrete, from + 1)
    }
}

/// The step that matches two sets of the same definition.
pub open spec fn sets_step(
    mode: MatchMode,
    progress: ProgressV,
    definition: CollectionDefinitionV,
    pattern_elements: Seq<TermV>,
    pattern_rest: Option<TermV>,
    subject_elements: Seq<TermV>,
    subject_rest: Option<TermV>,
) -> Step {
    if opaque_rest(definition, pattern_rest) || opaque_rest(definition, subject_rest) {
        Ok(
            deferred(
                progress,
                set_term(definition, pattern_elements, boxed_rest(pattern_rest)),
                set_term(definition, subject_elements, boxed_rest(subject_rest)),
            ),
        )
    } else {
        let all_left = sorted::<Term>(all_substituted(pattern_elements, progress.substitution));
        let all_right = sorted::<Term>(subject_elements);
        let left = difference(all_left, intersection(all_left, all_right));
        let right = difference(all_right, intersection(all_left, all_right));
        let left_set = set_term(definition, left, boxed_rest(pattern_rest));
        let right_set = set_term(definition, right, boxed_rest(subject_rest));
        let empty = set_term(definition, Seq::empty(), None);
        match first_with(left, true, 0) {
            Some(element) => if first_with(right, false, 0) is None && subject_rest is None {
                Err(FailReasonV::KeyNotFound(element, right_set))
            } else {
                Ok(deferred(progress, left_set, right_set))
            },
            None => if left.len() == 0 {
                match pattern_rest {
                    Some(rest) => Ok(enqueued(progress, rest, right_set)),
                    None => if right.len() == 0 && subject_rest is None {
                        Ok(progress)
                    } else if mode is Rewrite && subject_rest is Some {
                        Ok(deferred(progress, empty, right_set))
                    } else {
                        Err(FailReasonV::DifferentSymbols(empty, right_set))
                    },
                }
            } else if left.len() == 1 && right.len() == 1 && subject_rest is None {
                let progress = enqueued(progress, left[0], right[0]);
                match pattern_rest {
                    Some(rest) => Ok(enqueued(progress, rest, empty)),
                    None => Ok(progress),
                }
            } else if right.len() == 0 && subject_rest is None {
                Err(FailReasonV::DifferentSymbols(left_set, empty))
            } else {
                Ok(deferred(progress, left_set, right_set))
            },
        }
    }
}

fn find_first_with(terms: &Vec<Term>, concrete: bool) -> (result: Option<&Term>)
    ensures
        result.deep_view() == first_with(deep(terms@), concrete, 0),
{
    let mut i: usize = 0;
    while i < terms.len()
        invariant
            i <= terms.len(),
            first_with(deep(terms@), concrete, 0) == first_with(deep(terms@), concrete, i as int),
        decreases terms.len() - i,
    {
        assert(deep(terms@)[i as int] == terms[i as int]@);
        if terms[i].is_constructor_like() == concrete {
            return Some(&terms[i]);
        }
        i += 1;
    }
    None
}

pub(crate) fn match_sets(
    mode: MatchMode,
    progress: &mut Progress,
    definition: &CollectionDefinition,
    pattern_elements: &Vec<Term>,
    pattern_rest: Option<Term>,
    subject_elements: &Vec<Term>,
    subject_rest: Option<Term>,
) -> (result: Result<(), FailReason>)
    ensures
        result is Err ==> final(progress)@ == old(progress)@,
        step_view(result, *final(progress)) == sets_step(
            mode,
            old(progress)@,
            definition@,
            deep(pattern_elements@),
            pattern_rest.deep_view(),
            deep(subject_elements@),
            subject_rest.deep_view(),
        ),
{
    broadcast use lemma_optional_view;

    if is_opaque_rest(definition, &pattern_rest) || is_opaque_rest(definition, &subject_rest) {
        progress.defer(
            Term::set(definition.duplicate(), pattern_elements.duplicate(), pattern_rest),
            Term::set(definition.duplicate(), subject_elements.duplicate(), subject_rest),
        );
        return Ok(());
    }
    let all_left = into_sorted(&substitute_all(pattern_elements, &progress.substitution));
    let all_right = into_sorted(subject_elements);
    let common = intersect(&all_left, &all_right);
    let left = subtract(&all_left, &common);
    let right = subtract(&all_right, &common);
    if let Some(element) = find_first_with(&left, true) {
        if find_first_with(&right, false).is_none() && subject_rest.is_none() {
            return Err(
                FailReason::KeyNotFound(
                    element.duplicate(),
                    Term::set(definition.duplicate(), right, None),
                ),
            );
        }
        progress.defer(
            Term::set(definition.duplicate(), left, pattern_rest),
            Term::set(definition.duplicate(), right, subject_rest),
        );
        return Ok(());
    }
    if left.len() == 0 {
        let subject_is_empty: bool = right.len() == 0 && subject_rest.is_none();
        let subject_has_rest: bool = subject_rest.is_some();
        let subject = Term::set(definition.duplicate(), right, subject_rest);
        if let Some(rest) = pattern_rest {
            progress.enqueue(rest, subject);
            return Ok(());
        }
        if subject_is_empty {
            return Ok(());
        }
        let empty = Term::set(definition.duplicate(), Vec::new(), None);
        if matches!(mode, MatchMode::Rewrite) && subject_has_rest {
            progress.defer(empty, subject);
            return Ok(());
        }
        return Err(FailReason::DifferentSymbols(empty, subject));
    }
    if left.len() == 1 && right.len() == 1 && subject_rest.is_none() {
        assert(deep(left@)[0] == left[0]@);
        assert(deep(right@)[0] == right[0]@);
        progress.enqueue(left[0].duplicate(), right[0].duplicate());
        if let Some(rest) = pattern_rest {
            progress.enqueue(rest, Term::set(definition.duplicate(), Vec::new(), None));
        }
        return Ok(());
    }
    if right.len() == 0 && subject_rest.is_none() {
        return Err(
            FailReason::DifferentSymbols(
                Term::set(definition.duplicate(), left, pattern_rest),
                Term::set(definition.duplicate(), Vec::new(), None),
            ),
        );
    }
    progress.defer(
        Term::set(definition.duplicate(), left, pattern_rest),
        Term::set(definition.duplicate(), right, subject_rest),
    );
    Ok(())
}

} // verus!
