//! Mathematical views of composite values, and operations that respect them.

use vstd::prelude::*;

verus! {

/// The sequence of views of the elements of `items`.
pub open spec fn deep<T: DeepView>(items: Seq<T>) -> Seq<T::V> {
    Seq::new(items.len(), |i: int| items[i].deep_view())
}

pub broadcast proof fn lemma_vec_deep<T: DeepView>(items: Vec<T>)
    ensures
        #[trigger] items.deep_view() == deep(items@),
{
    assert(items.deep_view() =~= deep(items@));
}

pub broadcast proof fn lemma_deep_len<T: DeepView>(items: Seq<T>)
    ensures
        (#[trigger] deep(items)).len() == items.len(),
{
}

pub broadcast proof fn lemma_deep_push<T: DeepView>(items: Seq<T>, item: T)
    ensures
        #[trigger] deep(items.push(item)) == deep(items).push(item.deep_view()),
{
    assert(deep(items.push(item)) =~= deep(items).push(item.deep_view()));
}

pub broadcast proof fn lemma_deep_empty<T: DeepView>()
    ensures
        #[trigger] deep(Seq::<T>::empty()) == Seq::<T::V>::empty(),
{
    assert(deep(Seq::<T>::empty()) =~= Seq::<T::V>::empty());
}

pub broadcast proof fn lemma_deep_add<T: DeepView>(left: Seq<T>, right: Seq<T>)
    ensures
        #[trigger] deep(left + right) == deep(left) + deep(right),
{
    assert(deep(left + right) =~= deep(left) + deep(right));
}

pub broadcast proof fn lemma_deep_subrange<T: DeepView>(items: Seq<T>, from: int, to: int)
    requires
        0 <= from <= to <= items.len(),
    ensures
        #[trigger] deep(items.subrange(from, to)) == deep(items).subrange(from, to),
{
    assert(deep(items.subrange(from, to)) =~= deep(items).subrange(from, to));
}

pub broadcast group group_deep {
    lemma_vec_deep,
    lemma_deep_len,
    lemma_deep_push,
    lemma_deep_empty,
    lemma_deep_add,
    lemma_deep_subrange,
}

/// Values that can be copied and compared by what they denote.
pub trait Value: DeepView + Sized {
    fn duplicate(&self) -> (copy: Self)
        ensures
            copy.deep_view() == self.deep_view(),
    ;

    fn equals(&self, other: &Self) -> (same: bool)
        ensures
            same == (self.deep_view() == other.deep_view()),
    ;
}

impl Value for bool {
    fn duplicate(&self) -> (copy: Self) {
        *self
    }

    fn equals(&self, other: &Self) -> (same: bool) {
        *self == *other
    }
}

impl Value for u64 {
    fn duplicate(&self) -> (copy: Self) {
        *self
    }

    fn equals(&self, other: &Self) -> (same: bool) {
        *self == *other
    }
}

impl Value for u32 {
    fn duplicate(&self) -> (copy: Self) {
        *self
    }

    fn equals(&self, other: &Self) -> (same: bool) {
        *self == *other
    }
}

impl Value for usize {
    fn duplicate(&self) -> (copy: Self) {
        *self
    }

    fn equals(&self, other: &Self) -> (same: bool) {
        *self == *other
    }
}

impl Value for String {
    fn duplicate(&self) -> (copy: Self) {
        self.clone()
    }

    fn equals(&self, other: &Self) -> (same: bool) {
        *self == *other
    }
}

impl<T: Value> Value for Option<T> {
    fn duplicate(&self) -> (copy: Self) {
        match self {
            Some(value) => Some(value.duplicate()),
            None => None,
        }
    }

    fn equals(&self, other: &Self) -> (same: bool) {
        match (self, other) {
            (Some(left), Some(right)) => left.equals(right),
            (None, None) => true,
            _ => false,
        }
    }
}

impl<A: Value, B: Value> Value for (A, B) {
    fn duplicate(&self) -> (copy: Self) {
        (self.0.duplicate(), self.1.duplicate())
    }

    fn equals(&self, other: &Self) -> (same: bool) {
        self.0.equals(&other.0) && self.1.equals(&other.1)
    }
}

impl<T: Value> Value for Vec<T> {
    fn duplicate(&self) -> (copy: Self) {
        duplicate_all(self)
    }

    fn equals(&self, other: &Self) -> (same: bool) {
        equal_all(self, other)
    }
}

/// A copy of every item, in order.
pub fn duplicate_all<T: Value>(items: &[T]) -> (copy: Vec<T>)
    ensures
        deep(copy@) == deep(items@),
        copy.deep_view() == deep(items@),
{
    broadcast use group_deep;

    let mut copy: Vec<T> = Vec::new();
    let mut i: usize = 0;
    while i < items.len()
        invariant
            i <= items.len(),
            copy.len() == i,
            forall|j: int| 0 <= j < i ==> copy[j].deep_view() == items[j].deep_view(),
        decreases items.len() - i,
    {
        copy.push(items[i].duplicate());
        i += 1;
    }
    assert(deep(copy@) =~= deep(items@));
    copy
}

/// Whether both slices hold equal items in the same order.
pub fn equal_all<T: Value>(left: &[T], right: &[T]) -> (same: bool)
    ensures
        same == (deep(left@) == deep(right@)),
{
    if left.len() != right.len() {
        assert(deep(left@).len() != deep(right@).len());
        return false;
    }
    let mut i: usize = 0;
    while i < left.len()
        invariant
            i <= left.len(),
            left.len() == right.len(),
            forall|j: int| 0 <= j < i ==> left[j].deep_view() == right[j].deep_view(),
        decreases left.len() - i,
    {
        if !left[i].equals(&right[i]) {
            assert(deep(left@)[i as int] != deep(right@)[i as int]);
            return false;
        }
        i += 1;
    }
    assert(deep(left@) =~= deep(right@));
    true
}

/// Whether some item equals `wanted`.
pub fn contains<T: Value>(items: &[T], wanted: &T) -> (found: bool)
    ensures
        found == deep(items@).contains(wanted.deep_view()),
{
    let mut i: usize = 0;
    while i < items.len()
        invariant
            i <= items.len(),
            forall|j: int| 0 <= j < i ==> items[j].deep_view() != wanted.deep_view(),
        decreases items.len() - i,
    {
        if items[i].equals(wanted) {
            assert(deep(items@)[i as int] == wanted.deep_view());
            return true;
        }
        i += 1;
    }
    false
}

/// The first `count` of `items`, those that are in `other` if `members`, else those that are not.
pub open spec fn kept_upto<A>(items: Seq<A>, other: Seq<A>, members: bool, count: int) -> Seq<A>
    decreases count,
{
    if count <= 0 {
        Seq::empty()
    } else {
        let before = kept_upto(items, other, members, count - 1);
        if other.contains(items[count - 1]) == members {
            before.push(items[count - 1])
        } else {
            before
        }
    }
}

/// The items that are in `other` too.
pub open spec fn intersection<A>(items: Seq<A>, other: Seq<A>) -> Seq<A> {
    kept_upto(items, other, true, items.len() as int)
}

/// The items that are not in `other`.
pub open spec fn difference<A>(items: Seq<A>, other: Seq<A>) -> Seq<A> {
    kept_upto(items, other, false, items.len() as int)
}

fn keep<T: Value>(items: &[T], other: &[T], members: bool) -> (result: Vec<T>)
    ensures
        deep(result@) == kept_upto(deep(items@), deep(other@), members, items@.len() as int),
{
    broadcast use group_deep;

    let mut result: Vec<T> = Vec::new();
    let mut i: usize = 0;
    while i < items.len()
        invariant
            i <= items.len(),
            deep(result@) == kept_upto(deep(items@), deep(other@), members, i as int),
        decreases items.len() - i,
    {
        broadcast use group_deep;

        assert(deep(items@)[i as int] == items[i as int].deep_view());
        if contains(other, &items[i]) == members {
            result.push(items[i].duplicate());
        }
        i += 1;
    }
    result
}

/// The items that are in `other` too.
pub fn intersect<T: Value>(items: &[T], other: &[T]) -> (result: Vec<T>)
    ensures
        deep(result@) == intersection(deep(items@), deep(other@)),
{
    keep(items, other, true)
}

/// The items that are not in `other`.
pub fn subtract<T: Value>(items: &[T], other: &[T]) -> (result: Vec<T>)
    ensures
        deep(result@) == difference(deep(items@), deep(other@)),
{
    keep(items, other, false)
}

proof fn lemma_kept<A>(items: Seq<A>, other: Seq<A>, members: bool, count: int, item: A)
    requires
        0 <= count <= items.len(),
    ensures
        kept_upto(items, other, members, count).contains(item) <==> items.take(count).contains(item)
            && other.contains(item) == members,
    decreases count,
{
    if count > 0 {
        lemma_kept(items, other, members, count - 1, item);
        let last = items[count - 1];
        let before = kept_upto(items, other, members, count - 1);
        assert(items.take(count) =~= items.take(count - 1).push(last));
        if items.take(count - 1).contains(item) {
            let fewer = items.take(count - 1);
            let i = choose|i: int| 0 <= i < fewer.len() && fewer[i] == item;
            assert(items.take(count)[i] == item);
        }
        assert(items.take(count)[count - 1] == last);
        if before.contains(item) {
            let i = choose|i: int| 0 <= i < before.len() && before[i] == item;
            assert(before.push(last)[i] == item);
        }
        assert(before.push(last)[before.len() as int] == last);
    }
}

/// The intersection holds what both sequences hold.
pub proof fn law_intersection<A>(items: Seq<A>, other: Seq<A>, item: A)
    ensures
        intersection(items, other).contains(item) <==> items.contains(item) && other.contains(item),
{
    assert(items.take(items.len() as int) =~= items);
    lemma_kept(items, other, true, items.len() as int, item);
}

/// The difference holds what the first sequence holds and the second does not: two sequences have
/// nothing in common once each has lost the other's items.
pub proof fn law_difference<A>(items: Seq<A>, other: Seq<A>, item: A)
    ensures
        difference(items, other).contains(item) <==> items.contains(item) && !other.contains(item),
{
    assert(items.take(items.len() as int) =~= items);
    lemma_kept(items, other, false, items.len() as int, item);
}

} // verus!
