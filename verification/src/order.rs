//! The order of keys, and what sorting by keys gives.

use vstd::prelude::*;
use crate::ops::{
    extended_upto, inserted, inserted_from, key_precedes, key_precedes_from,
    lemma_inserted_contains, sorted, Keyed,
};

verus! {

// ---------------------------------------------------------------------------------------------
// The order
// ---------------------------------------------------------------------------------------------
proof fn lemma_irreflexive_from(key: Seq<u32>, from: int)
    requires
        0 <= from,
    ensures
        !key_precedes_from(key, key, from),
    decreases key.len() - from,
{
    if from < key.len() {
        lemma_irreflexive_from(key, from + 1);
    }
}

proof fn lemma_total_from(left: Seq<u32>, right: Seq<u32>, from: int)
    requires
        0 <= from <= left.len(),
        from <= right.len(),
        forall|i: int| 0 <= i < from ==> left[i] == right[i],
        !key_precedes_from(left, right, from),
        !key_precedes_from(right, left, from),
    ensures
        left == right,
    decreases left.len() - from,
{
    if from < left.len() && from < right.len() {
        lemma_total_from(left, right, from + 1);
    } else {
        assert(left =~= right);
    }
}

proof fn lemma_transitive_from(a: Seq<u32>, b: Seq<u32>, c: Seq<u32>, from: int)
    requires
        0 <= from,
        key_precedes_from(a, b, from),
        key_precedes_from(b, c, from),
    ensures
        key_precedes_from(a, c, from),
    decreases a.len() - from,
{
    if from < a.len() && from < b.len() && from < c.len() && a[from] == b[from] && b[from]
        == c[from] {
        lemma_transitive_from(a, b, c, from + 1);
    }
}

/// The order of values by their keys is strict and total: of two different values one precedes the
/// other.
pub proof fn law_order<T: Keyed>(left: T::V, right: T::V)
    ensures
        left == right ==> !key_precedes(T::key(left), T::key(right)),
        left != right ==> key_precedes(T::key(left), T::key(right)) != key_precedes(
            T::key(right),
            T::key(left),
        ),
{
    lemma_irreflexive_from(T::key(left), 0);
    let a = T::key(left);
    let b = T::key(right);
    if left != right {
        if !key_precedes(a, b) && !key_precedes(b, a) {
            lemma_total_from(a, b, 0);
            assert(a + Seq::<u32>::empty() == b + Seq::<u32>::empty());
            T::lemma_decodes(left, right, Seq::empty(), Seq::empty());
        }
        if key_precedes(a, b) && key_precedes(b, a) {
            lemma_transitive_from(a, b, a, 0);
        }
    }
}

/// The order of keys is transitive.
pub proof fn law_order_is_transitive(a: Seq<u32>, b: Seq<u32>, c: Seq<u32>)
    requires
        key_precedes(a, b),
        key_precedes(b, c),
    ensures
        key_precedes(a, c),
{
    lemma_transitive_from(a, b, c, 0);
}

// ---------------------------------------------------------------------------------------------
// Sorted sets
// ---------------------------------------------------------------------------------------------
/// Whether each item precedes all that follow: the items are in order, and none occurs twice.
pub open spec fn increasing<T: Keyed>(items: Seq<T::V>) -> bool {
    forall|i: int, j: int|
        0 <= i < j < items.len() ==> key_precedes(
            T::key(#[trigger] items[i]),
            T::key(#[trigger] items[j]),
        )
}

/// Whether two sequences hold the same items, in whatever order and however often.
pub open spec fn same_items<A>(left: Seq<A>, right: Seq<A>) -> bool {
    forall|item: A| #[trigger] left.contains(item) <==> right.contains(item)
}

proof fn lemma_inserted<T: Keyed>(items: Seq<T::V>, item: T::V, from: int)
    requires
        increasing::<T>(items),
        0 <= from <= items.len(),
        forall|i: int|
            0 <= i < from ==> key_precedes(T::key(#[trigger] items[i]), T::key(item)),
    ensures
        increasing::<T>(inserted_from::<T>(items, item, from)),
    decreases items.len() - from,
{
    let after = inserted_from::<T>(items, item, from);
    if from >= items.len() {
        assert forall|i: int, j: int| 0 <= i < j < after.len() implies key_precedes(
            T::key(#[trigger] after[i]),
            T::key(#[trigger] after[j]),
        ) by {
            assert(after[i] == items[i]);
            if j < items.len() {
                assert(after[j] == items[j]);
            }
        }
    } else if items[from] == item {
    } else if key_precedes(T::key(item), T::key(items[from])) {
        assert forall|i: int, j: int| 0 <= i < j < after.len() implies key_precedes(
            T::key(#[trigger] after[i]),
            T::key(#[trigger] after[j]),
        ) by {
            if i < from {
                assert(after[i] == items[i]);
                if j < from {
                    assert(after[j] == items[j]);
                } else if j > from {
                    assert(after[j] == items[j - 1]);
                }
            } else if i == from {
                assert(after[j] == items[j - 1]);
                if j - 1 > from {
                    law_order_is_transitive(
                        T::key(item),
                        T::key(items[from]),
                        T::key(items[j - 1]),
                    );
                }
            } else {
                assert(after[i] == items[i - 1]);
                assert(after[j] == items[j - 1]);
            }
        }
    } else {
        law_order::<T>(item, items[from]);
        lemma_inserted::<T>(items, item, from + 1);
    }
}

/// A sorted set stays one when an item is put into it, and holds that item and what it held.
pub proof fn law_inserted<T: Keyed>(items: Seq<T::V>, item: T::V)
    requires
        increasing::<T>(items),
    ensures
        increasing::<T>(inserted::<T>(items, item)),
        same_items(inserted::<T>(items, item), items.push(item)),
{
    lemma_inserted::<T>(items, item, 0);
    assert forall|other: T::V| #[trigger] inserted::<T>(items, item).contains(other)
        <==> items.push(item).contains(other) by {
        lemma_inserted_contains::<T>(items, item, 0, other);
        lemma_push_contains(items, item, other);
    }
}

/// A sequence with one more item holds that item and what it held.
pub proof fn lemma_push_contains<A>(items: Seq<A>, item: A, other: A)
    ensures
        items.push(item).contains(other) <==> items.contains(other) || other == item,
{
    let more = items.push(item);
    assert(more[items.len() as int] == item);
    if items.contains(other) {
        let i = choose|i: int| 0 <= i < items.len() && items[i] == other;
        assert(more[i] == other);
    }
}

proof fn lemma_extended<T: Keyed>(items: Seq<T::V>, more: Seq<T::V>, count: int, item: T::V)
    requires
        increasing::<T>(items),
        0 <= count <= more.len(),
    ensures
        increasing::<T>(extended_upto::<T>(items, more, count)),
        extended_upto::<T>(items, more, count).contains(item) <==> items.contains(item)
            || more.take(count).contains(item),
    decreases count,
{
    if count > 0 {
        lemma_extended::<T>(items, more, count - 1, item);
        let before = extended_upto::<T>(items, more, count - 1);
        law_inserted::<T>(before, more[count - 1]);
        lemma_inserted_contains::<T>(before, more[count - 1], 0, item);
        assert(more.take(count) =~= more.take(count - 1).push(more[count - 1]));
        lemma_push_contains(more.take(count - 1), more[count - 1], item);
    }
}

/// Sorting gives the items in order, each once.
pub proof fn law_sorted<T: Keyed>(items: Seq<T::V>)
    ensures
        increasing::<T>(sorted::<T>(items)),
        same_items(sorted::<T>(items), items),
{
    let none = Seq::<T::V>::empty();
    assert(items.take(items.len() as int) =~= items);
    assert(increasing::<T>(sorted::<T>(items))) by {
        assert(increasing::<T>(none));
        lemma_extended_increasing::<T>(none, items, items.len() as int);
    }
    assert forall|item: T::V| #[trigger] sorted::<T>(items).contains(item) <==> items.contains(
        item,
    ) by {
        lemma_extended::<T>(none, items, items.len() as int, item);
    }
}

proof fn lemma_extended_increasing<T: Keyed>(items: Seq<T::V>, more: Seq<T::V>, count: int)
    requires
        increasing::<T>(items),
        0 <= count <= more.len(),
    ensures
        increasing::<T>(extended_upto::<T>(items, more, count)),
    decreases count,
{
    if count > 0 {
        lemma_extended_increasing::<T>(items, more, count - 1);
        law_inserted::<T>(extended_upto::<T>(items, more, count - 1), more[count - 1]);
    }
}

proof fn lemma_increasing_rest<T: Keyed>(items: Seq<T::V>, item: T::V)
    requires
        increasing::<T>(items),
        items.len() > 0,
    ensures
        increasing::<T>(items.skip(1)),
        items.skip(1).contains(item) <==> items.contains(item) && item != items[0],
{
    let rest = items.skip(1);
    assert forall|i: int, j: int| 0 <= i < j < rest.len() implies key_precedes(
        T::key(#[trigger] rest[i]),
        T::key(#[trigger] rest[j]),
    ) by {
        assert(rest[i] == items[i + 1] && rest[j] == items[j + 1]);
    }
    if rest.contains(item) {
        let i = choose|i: int| 0 <= i < rest.len() && rest[i] == item;
        assert(items[i + 1] == item);
        law_order::<T>(items[0], item);
    }
    if items.contains(item) && item != items[0] {
        let i = choose|i: int| 0 <= i < items.len() && items[i] == item;
        assert(rest[i - 1] == item);
    }
}

proof fn lemma_unique<T: Keyed>(left: Seq<T::V>, right: Seq<T::V>)
    requires
        increasing::<T>(left),
        increasing::<T>(right),
        same_items(left, right),
    ensures
        left == right,
    decreases left.len(),
{
    if left.len() == 0 {
        if right.len() > 0 {
            assert(right.contains(right[0]));
            assert(left.contains(right[0]));
        }
        assert(left =~= right);
    } else {
        assert(left.contains(left[0]));
        assert(right.contains(left[0]));
        let j = choose|j: int| 0 <= j < right.len() && right[j] == left[0];
        assert(right.contains(right[0]));
        assert(left.contains(right[0]));
        let k = choose|k: int| 0 <= k < left.len() && left[k] == right[0];
        if left[0] != right[0] {
            assert(key_precedes(T::key(right[0]), T::key(right[j])));
            assert(key_precedes(T::key(left[0]), T::key(left[k])));
            law_order::<T>(left[0], right[0]);
        }
        let a = left.skip(1);
        let b = right.skip(1);
        lemma_increasing_rest::<T>(left, left[0]);
        lemma_increasing_rest::<T>(right, right[0]);
        assert forall|item: T::V| #[trigger] a.contains(item) <==> b.contains(item) by {
            lemma_increasing_rest::<T>(left, item);
            lemma_increasing_rest::<T>(right, item);
            assert(left.contains(item) <==> right.contains(item));
        }
        lemma_unique::<T>(a, b);
        assert(left =~= seq![left[0]] + a);
        assert(right =~= seq![right[0]] + b);
    }
}

/// There is one sorted sequence for each set of items: two sequences are sorted to the same
/// exactly if they hold the same items.
pub proof fn law_sorted_is_canonical<T: Keyed>(left: Seq<T::V>, right: Seq<T::V>)
    ensures
        sorted::<T>(left) == sorted::<T>(right) <==> same_items(left, right),
{
    law_sorted::<T>(left);
    law_sorted::<T>(right);
    let a = sorted::<T>(left);
    let b = sorted::<T>(right);
    if same_items(left, right) {
        assert forall|item: T::V| #[trigger] a.contains(item) <==> b.contains(item) by {
            assert(left.contains(item) <==> right.contains(item));
        }
        lemma_unique::<T>(a, b);
    }
    if a == b {
        assert forall|item: T::V| #[trigger] left.contains(item) <==> right.contains(item) by {
            assert(a.contains(item) <==> left.contains(item));
            assert(b.contains(item) <==> right.contains(item));
        }
    }
}

} // verus!
