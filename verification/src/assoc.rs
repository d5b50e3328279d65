//! Association lists in the order of their keys.

use vstd::prelude::*;
use crate::model::{deep, group_deep, Value};
use crate::ops::{is_before, key_precedes, Keyed};

verus! {

broadcast use group_deep;

/// The value of `key` from position `from` on.
pub open spec fn assoc_from<A, B>(items: Seq<(A, B)>, key: A, from: int) -> Option<B>
    decreases items.len() - from,
{
    if from >= items.len() {
        None
    } else if items[from].0 == key {
        Some(items[from].1)
    } else {
        assoc_from(items, key, from + 1)
    }
}

/// The value of `key`.
pub open spec fn assoc<A, B>(items: Seq<(A, B)>, key: A) -> Option<B> {
    assoc_from(items, key, 0)
}

/// `items` with `value` for `key`, looked at from position `from` on.
pub open spec fn assoc_bound_from<K: Keyed, B>(
    items: Seq<(K::V, B)>,
    key: K::V,
    value: B,
    from: int,
) -> Seq<(K::V, B)>
    decreases items.len() - from,
{
    if from >= items.len() {
        items.push((key, value))
    } else if items[from].0 == key {
        items.update(from, (key, value))
    } else if key_precedes(K::key(key), K::key(items[from].0)) {
        items.insert(from, (key, value))
    } else {
        assoc_bound_from::<K, B>(items, key, value, from + 1)
    }
}

/// `items` with `value` for `key`, in place of the value that it had.
pub open spec fn assoc_bound<K: Keyed, B>(
    items: Seq<(K::V, B)>,
    key: K::V,
    value: B,
) -> Seq<(K::V, B)> {
    assoc_bound_from::<K, B>(items, key, value, 0)
}

/// The value of `key`.
pub fn assoc_get<'a, K: Value, W: DeepView>(items: &'a Vec<(K, W)>, key: &K) -> (result: Option<
    &'a W,
>)
    ensures
        result.deep_view() == assoc(deep(items@), key.deep_view()),
{
    let mut i: usize = 0;
    while i < items.len()
        invariant
            i <= items.len(),
            assoc(deep(items@), key.deep_view()) == assoc_from(
                deep(items@),
                key.deep_view(),
                i as int,
            ),
        decreases items.len() - i,
    {
        assert(deep(items@)[i as int] == (
            items[i as int].0.deep_view(),
            items[i as int].1.deep_view(),
        ));
        if items[i].0.equals(key) {
            return Some(&items[i].1);
        }
        i += 1;
    }
    None
}

/// Give `key` a value, in place of the one that it had.
pub fn assoc_insert<K: Keyed, W: DeepView>(items: &mut Vec<(K, W)>, key: K, value: W)
    ensures
        deep(final(items)@) == assoc_bound::<K, W::V>(
            deep(old(items)@),
            key.deep_view(),
            value.deep_view(),
        ),
{
    let mut i: usize = 0;
    while i < items.len()
        invariant
            i <= items.len(),
            *items == *old(items),
            assoc_bound::<K, W::V>(deep(items@), key.deep_view(), value.deep_view())
                == assoc_bound_from::<K, W::V>(
                deep(items@),
                key.deep_view(),
                value.deep_view(),
                i as int,
            ),
        decreases items.len() - i,
    {
        assert(deep(items@)[i as int] == (
            items[i as int].0.deep_view(),
            items[i as int].1.deep_view(),
        ));
        if items[i].0.equals(&key) {
            items.set(i, (key, value));
            assert(deep(items@) =~= deep(old(items)@).update(
                i as int,
                (key.deep_view(), value.deep_view()),
            ));
            return ;
        }
        if is_before(&key, &items[i].0) {
            items.insert(i, (key, value));
            assert(deep(items@) =~= deep(old(items)@).insert(
                i as int,
                (key.deep_view(), value.deep_view()),
            ));
            return ;
        }
        i += 1;
    }
    items.push((key, value));
}

/// The position of `key` from `from` on.
pub open spec fn key_position_from<A, B>(items: Seq<(A, B)>, key: A, from: int) -> Option<int>
    decreases items.len() - from,
{
    if from >= items.len() {
        None
    } else if items[from].0 == key {
        Some(from)
    } else {
        key_position_from(items, key, from + 1)
    }
}

/// The position of `key`.
pub fn key_position<K: Value, W: DeepView>(items: &Vec<(K, W)>, key: &K) -> (result: Option<usize>)
    ensures
        match result {
            Some(i) => i < items.len() && items[i as int].0.deep_view() == key.deep_view()
                && key_position_from(deep(items@), key.deep_view(), 0) == Some(i as int),
            None => key_position_from(deep(items@), key.deep_view(), 0) is None,
        },
{
    let mut i: usize = 0;
    while i < items.len()
        invariant
            i <= items.len(),
            key_position_from(deep(items@), key.deep_view(), 0) == key_position_from(
                deep(items@),
                key.deep_view(),
                i as int,
            ),
        decreases items.len() - i,
    {
        assert(deep(items@)[i as int].0 == items[i as int].0.deep_view());
        if items[i].0.equals(key) {
            return Some(i);
        }
        i += 1;
    }
    None
}

/// `items` with `value` put behind the values of `key`.
pub open spec fn assoc_pushed<K: Keyed, B>(
    items: Seq<(K::V, Seq<B>)>,
    key: K::V,
    value: B,
) -> Seq<(K::V, Seq<B>)> {
    match key_position_from(items, key, 0) {
        Some(i) => items.update(i, (key, items[i].1.push(value))),
        None => assoc_bound::<K, Seq<B>>(items, key, seq![value]),
    }
}

/// Add `value` behind the values of `key`.
pub fn assoc_push<K: Keyed, W: DeepView>(items: &mut Vec<(K, Vec<W>)>, key: K, value: W)
    ensures
        deep(final(items)@) == assoc_pushed::<K, W::V>(
            deep(old(items)@),
            key.deep_view(),
            value.deep_view(),
        ),
{
    match key_position(items, &key) {
        Some(i) => {
            assert(deep(items@)[i as int] == (
                items[i as int].0.deep_view(),
                deep(items[i as int].1@),
            ));
            let (own, mut values) = items.remove(i);
            values.push(value);
            items.insert(i, (own, values));
            assert(deep(items@) =~= assoc_pushed::<K, W::V>(
                deep(old(items)@),
                key.deep_view(),
                value.deep_view(),
            ));
        },
        None => {
            let mut values: Vec<W> = Vec::new();
            values.push(value);
            assert(deep(values@) =~= seq![value.deep_view()]);
            assoc_insert(items, key, values);
        },
    }
}

/// The association list of the first `count` of `items`, where a later value replaces an earlier.
pub open spec fn collected_upto<K: Keyed, B>(items: Seq<(K::V, B)>, count: int) -> Seq<(K::V, B)>
    decreases count,
{
    if count <= 0 {
        Seq::empty()
    } else {
        assoc_bound::<K, B>(
            collected_upto::<K, B>(items, count - 1),
            items[count - 1].0,
            items[count - 1].1,
        )
    }
}

/// The association list of `items`, where a later value replaces an earlier.
pub open spec fn collected<K: Keyed, B>(items: Seq<(K::V, B)>) -> Seq<(K::V, B)> {
    collected_upto::<K, B>(items, items.len() as int)
}

/// The entries ordered by their keys; of those with the same key the last.
pub fn collect_assoc<K: Keyed, W: Value>(items: &[(K, W)]) -> (result: Vec<(K, W)>)
    ensures
        deep(result@) == collected::<K, W::V>(deep(items@)),
{
    let mut result: Vec<(K, W)> = Vec::new();
    let mut i: usize = 0;
    while i < items.len()
        invariant
            i <= items.len(),
            deep(result@) == collected_upto::<K, W::V>(deep(items@), i as int),
        decreases items.len() - i,
    {
        assert(deep(items@)[i as int] == (
            items[i as int].0.deep_view(),
            items[i as int].1.deep_view(),
        ));
        assoc_insert(&mut result, items[i].0.duplicate(), items[i].1.duplicate());
        i += 1;
    }
    result
}

// ---------------------------------------------------------------------------------------------
// Laws
// ---------------------------------------------------------------------------------------------
proof fn lemma_insert_shift<A, B>(items: Seq<(A, B)>, at: int, entry: (A, B), key: A, from: int)
    requires
        0 <= at <= from <= items.len(),
    ensures
        assoc_from(items.insert(at, entry), key, from + 1) == assoc_from(items, key, from),
    decreases items.len() - from,
{
    if from < items.len() {
        lemma_insert_shift(items, at, entry, key, from + 1);
        assert(items.insert(at, entry)[from + 1] == items[from]);
    }
}

proof fn lemma_update_behind<A, B>(items: Seq<(A, B)>, at: int, entry: (A, B), key: A, from: int)
    requires
        0 <= at < from <= items.len(),
    ensures
        assoc_from(items.update(at, entry), key, from) == assoc_from(items, key, from),
    decreases items.len() - from,
{
    if from < items.len() {
        lemma_update_behind(items, at, entry, key, from + 1);
    }
}

proof fn lemma_bound_from<K: Keyed, B>(
    items: Seq<(K::V, B)>,
    key: K::V,
    value: B,
    other: K::V,
    from: int,
)
    requires
        0 <= from <= items.len(),
    ensures
        assoc_from(assoc_bound_from::<K, B>(items, key, value, from), other, from) == (if other
            == key {
            Some(value)
        } else {
            assoc_from(items, other, from)
        }),
        assoc_bound_from::<K, B>(items, key, value, from).len() >= items.len(),
        forall|i: int|
            0 <= i < from ==> #[trigger] assoc_bound_from::<K, B>(items, key, value, from)[i]
                == items[i],
    decreases items.len() - from,
{
    let bound = assoc_bound_from::<K, B>(items, key, value, from);
    if from >= items.len() {
        assert(bound == items.push((key, value)));
        assert(bound[from] == (key, value));
        assert(assoc_from(bound, other, from + 1) is None);
    } else if items[from].0 == key {
        lemma_update_behind(items, from, (key, value), other, from + 1);
        assert(bound[from] == (key, value));
    } else if key_precedes(K::key(key), K::key(items[from].0)) {
        lemma_insert_shift(items, from, (key, value), other, from);
        assert(bound[from] == (key, value));
    } else {
        lemma_bound_from::<K, B>(items, key, value, other, from + 1);
        assert(bound == assoc_bound_from::<K, B>(items, key, value, from + 1));
        assert(bound[from] == items[from]);
    }
}

/// To give a key a value is to give it that value and to leave all other keys as they are.
pub proof fn law_bound<K: Keyed, B>(items: Seq<(K::V, B)>, key: K::V, value: B, other: K::V)
    ensures
        assoc(assoc_bound::<K, B>(items, key, value), other) == (if other == key {
            Some(value)
        } else {
            assoc(items, other)
        }),
{
    lemma_bound_from::<K, B>(items, key, value, other, 0);
}

proof fn lemma_bound_again<K: Keyed, B>(
    items: Seq<(K::V, B)>,
    bound: Seq<(K::V, B)>,
    key: K::V,
    value: B,
    from: int,
)
    requires
        0 <= from <= items.len(),
        bound == assoc_bound_from::<K, B>(items, key, value, from),
    ensures
        assoc_bound_from::<K, B>(bound, key, value, from) == bound,
    decreases items.len() - from,
{
    if from >= items.len() {
        assert(bound == items.push((key, value)));
        assert(bound[from] == (key, value));
        assert(bound.update(from, (key, value)) =~= bound);
    } else if items[from].0 == key {
        assert(bound.update(from, (key, value)) =~= bound);
    } else if key_precedes(K::key(key), K::key(items[from].0)) {
        assert(bound[from] == (key, value));
        assert(bound.update(from, (key, value)) =~= bound);
    } else {
        lemma_bound_from::<K, B>(items, key, value, key, from + 1);
        lemma_bound_again::<K, B>(items, bound, key, value, from + 1);
        assert(bound[from] == items[from]);
    }
}

/// To give a key the same value twice is to give it once.
pub proof fn law_bound_again<K: Keyed, B>(items: Seq<(K::V, B)>, key: K::V, value: B)
    ensures
        ({
            let bound = assoc_bound::<K, B>(items, key, value);
            assoc_bound::<K, B>(bound, key, value) == bound
        }),
{
    lemma_bound_again::<K, B>(
        items,
        assoc_bound::<K, B>(items, key, value),
        key,
        value,
        0,
    );
}

proof fn lemma_update_at<A, B>(items: Seq<(A, B)>, key: A, value: B, other: A, from: int)
    requires
        0 <= from,
        key_position_from(items, key, from) is Some,
    ensures
        ({
            let at = key_position_from(items, key, from)->0;
            &&& from <= at < items.len()
            &&& assoc_from(items, key, from) == Some(items[at].1)
            &&& assoc_from(items.update(at, (key, value)), other, from) == (if other == key {
                Some(value)
            } else {
                assoc_from(items, other, from)
            })
        }),
    decreases items.len() - from,
{
    let at = key_position_from(items, key, from)->0;
    if items[from].0 != key {
        lemma_update_at(items, key, value, other, from + 1);
        assert(items.update(at, (key, value))[from] == items[from]);
    } else {
        lemma_update_behind(items, from, (key, value), other, from + 1);
    }
}

proof fn lemma_no_position<A, B>(items: Seq<(A, B)>, key: A, from: int)
    ensures
        key_position_from(items, key, from) is None <==> assoc_from(items, key, from) is None,
    decreases items.len() - from,
{
    if from < items.len() {
        lemma_no_position(items, key, from + 1);
    }
}

/// To change the value of a key that is there leaves all other keys as they are.
pub proof fn law_updated<A, B>(items: Seq<(A, B)>, key: A, value: B, other: A)
    requires
        key_position_from(items, key, 0) is Some,
    ensures
        ({
            let at = key_position_from(items, key, 0)->0;
            &&& 0 <= at < items.len()
            &&& assoc(items, key) == Some(items[at].1)
            &&& assoc(items.update(at, (key, value)), other) == (if other == key {
                Some(value)
            } else {
                assoc(items, other)
            })
        }),
{
    lemma_update_at(items, key, value, other, 0);
}

/// A key without a position has no value.
pub proof fn law_position<A, B>(items: Seq<(A, B)>, key: A)
    ensures
        key_position_from(items, key, 0) is None <==> assoc(items, key) is None,
{
    lemma_no_position(items, key, 0);
}

/// To add a value to those of a key puts it behind them, and leaves all other keys as they are.
pub proof fn law_pushed<K: Keyed, B>(
    items: Seq<(K::V, Seq<B>)>,
    key: K::V,
    value: B,
    other: K::V,
)
    ensures
        assoc(assoc_pushed::<K, B>(items, key, value), other) == (if other == key {
            match assoc(items, key) {
                Some(values) => Some(values.push(value)),
                None => Some(seq![value]),
            }
        } else {
            assoc(items, other)
        }),
{
    law_position(items, key);
    match key_position_from(items, key, 0) {
        Some(i) => {
            law_updated(items, key, items[i].1.push(value), other);
        },
        None => {
            law_bound::<K, Seq<B>>(items, key, seq![value], other);
        },
    }
}

} // verus!
