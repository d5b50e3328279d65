//! The selection of the leaves of an execution.

use vstd::prelude::*;
use crate::execution_types::{ExecutionLeaf, ExecutionLeafV, HaltReason, HaltReasonV};
use crate::model::{contains, deep, group_deep, Value};
use crate::order::{law_sorted_is_canonical, lemma_push_contains, same_items};
use crate::ops::{into_sorted, sorted};
use crate::predicate::{Predicate, PredicateV};
use crate::term::{Term, TermV};

verus! {

broadcast use group_deep;

/// Whether the execution got stuck.
pub open spec fn got_stuck(reason: HaltReasonV) -> bool {
    reason is Stuck || reason is Trivial || reason is Vacuous
}

fn has_got_stuck(reason: &HaltReason) -> (result: bool)
    ensures
        result == got_stuck(reason@),
{
    match reason {
        HaltReason::Stuck | HaltReason::Trivial | HaltReason::Vacuous => true,
        _ => false,
    }
}

fn is_depth_bound(reason: &HaltReason) -> (result: bool)
    ensures
        result == (reason@ is DepthBound),
{
    match reason {
        HaltReason::DepthBound => true,
        _ => false,
    }
}

/// Whether one of the first `count` leaves got stuck.
pub open spec fn any_stuck(leaves: Seq<ExecutionLeafV>, count: int) -> bool
    decreases count,
{
    count > 0 && (got_stuck(leaves[count - 1].halt_reason) || any_stuck(leaves, count - 1))
}

/// The first `count` leaves but those at the depth bound.
pub open spec fn within_depth(leaves: Seq<ExecutionLeafV>, count: int) -> Seq<ExecutionLeafV>
    decreases count,
{
    if count <= 0 {
        Seq::empty()
    } else {
        let before = within_depth(leaves, count - 1);
        if leaves[count - 1].halt_reason is DepthBound {
            before
        } else {
            before.push(leaves[count - 1])
        }
    }
}

/// The leaves that are reported: where one got stuck, those at the depth bound are left out.
pub open spec fn selected(leaves: Seq<ExecutionLeafV>) -> Seq<ExecutionLeafV> {
    if any_stuck(leaves, leaves.len() as int) {
        within_depth(leaves, leaves.len() as int)
    } else {
        leaves
    }
}

fn drop_depth_bound(leaves: Vec<ExecutionLeaf>) -> (result: Vec<ExecutionLeaf>)
    ensures
        deep(result@) == within_depth(deep(leaves@), leaves@.len() as int),
{
    let mut result: Vec<ExecutionLeaf> = Vec::new();
    let mut i: usize = 0;
    while i < leaves.len()
        invariant
            i <= leaves.len(),
            deep(result@) == within_depth(deep(leaves@), i as int),
        decreases leaves.len() - i,
    {
        assert(deep(leaves@)[i as int] == leaves[i as int]@);
        if !is_depth_bound(&leaves[i].halt_reason) {
            result.push(leaves[i].duplicate());
        }
        i += 1;
    }
    result
}

/// Prefer leaves that got stuck to leaves at the depth bound.
pub fn select_got_stuck_over_depth_bound(leaves: Vec<ExecutionLeaf>) -> (result: Vec<ExecutionLeaf>)
    ensures
        deep(result@) == selected(deep(leaves@)),
{
    let mut stuck = false;
    let mut i: usize = 0;
    while i < leaves.len()
        invariant
            i <= leaves.len(),
            stuck == any_stuck(deep(leaves@), i as int),
        decreases leaves.len() - i,
    {
        assert(deep(leaves@)[i as int] == leaves[i as int]@);
        stuck = has_got_stuck(&leaves[i].halt_reason) || stuck;
        i += 1;
    }
    if stuck {
        drop_depth_bound(leaves)
    } else {
        leaves
    }
}

/// Leaves that are selected as they come in.
#[derive(Debug, PartialEq, Eq)]
pub struct SelectedExecutionLeaves {
    pub retained: Vec<ExecutionLeaf>,
    pub got_stuck: bool,
}

/// The view of [`SelectedExecutionLeaves`].
pub struct SelectedExecutionLeavesV {
    pub retained: Seq<ExecutionLeafV>,
    pub got_stuck: bool,
}

impl View for SelectedExecutionLeaves {
    type V = SelectedExecutionLeavesV;

    open spec fn view(&self) -> SelectedExecutionLeavesV {
        SelectedExecutionLeavesV { retained: deep(self.retained@), got_stuck: self.got_stuck }
    }
}

impl SelectedExecutionLeavesV {
    /// No leaves.
    pub open spec fn empty() -> Self {
        SelectedExecutionLeavesV { retained: Seq::empty(), got_stuck: false }
    }

    /// With one more leaf.
    pub open spec fn pushed(self, leaf: ExecutionLeafV) -> Self {
        let released = if got_stuck(leaf.halt_reason) && !self.got_stuck {
            SelectedExecutionLeavesV {
                retained: within_depth(self.retained, self.retained.len() as int),
                got_stuck: true,
            }
        } else {
            self
        };
        if released.got_stuck && leaf.halt_reason is DepthBound {
            released
        } else {
            SelectedExecutionLeavesV { retained: released.retained.push(leaf), ..released }
        }
    }

    /// With the first `count` leaves, one after another.
    pub open spec fn pushed_all(self, leaves: Seq<ExecutionLeafV>, count: int) -> Self
        decreases count,
    {
        if count <= 0 {
            self
        } else {
            self.pushed_all(leaves, count - 1).pushed(leaves[count - 1])
        }
    }
}

impl Default for SelectedExecutionLeaves {
    fn default() -> (leaves: Self)
        ensures
            leaves@ == SelectedExecutionLeavesV::empty(),
    {
        SelectedExecutionLeaves { retained: Vec::new(), got_stuck: false }
    }
}

impl SelectedExecutionLeaves {
    /// Add a leaf. The first that got stuck releases those at the depth bound, and later ones at the
    /// depth bound are not kept.
    pub fn push(&mut self, leaf: ExecutionLeaf)
        ensures
            final(self)@ == old(self)@.pushed(leaf@),
    {
        if has_got_stuck(&leaf.halt_reason) && !self.got_stuck {
            let mut retained: Vec<ExecutionLeaf> = Vec::new();
            retained.append(&mut self.retained);
            self.retained = drop_depth_bound(retained);
            self.got_stuck = true;
        }
        if self.got_stuck && is_depth_bound(&leaf.halt_reason) {
            return ;
        }
        self.retained.push(leaf);
    }

    /// Have these leaves in place of those so far.
    pub fn replace_unselected(&mut self, leaves: Vec<ExecutionLeaf>)
        ensures
            final(self)@ == (SelectedExecutionLeavesV {
                retained: deep(leaves@),
                got_stuck: false,
            }),
    {
        self.retained = leaves;
        self.got_stuck = false;
    }

    /// The leaves.
    pub fn retained(&self) -> (result: &Vec<ExecutionLeaf>)
        ensures
            deep(result@) == self@.retained,
    {
        &self.retained
    }

    /// The leaves.
    pub fn into_inner(self) -> (result: Vec<ExecutionLeaf>)
        ensures
            deep(result@) == self@.retained,
    {
        self.retained
    }
}

proof fn lemma_within_depth_push(leaves: Seq<ExecutionLeafV>, leaf: ExecutionLeafV, count: int)
    requires
        0 <= count <= leaves.len(),
    ensures
        within_depth(leaves.push(leaf), count) == within_depth(leaves, count),
        any_stuck(leaves.push(leaf), count) == any_stuck(leaves, count),
    decreases count,
{
    if count > 0 {
        lemma_within_depth_push(leaves, leaf, count - 1);
        assert(leaves.push(leaf)[count - 1] == leaves[count - 1]);
    }
}

proof fn lemma_subrange_step(leaves: Seq<ExecutionLeafV>, count: int)
    requires
        0 < count <= leaves.len(),
    ensures
        leaves.subrange(0, count) == leaves.subrange(0, count - 1).push(leaves[count - 1]),
{
    assert(leaves.subrange(0, count) =~= leaves.subrange(0, count - 1).push(leaves[count - 1]));
}

/// To select leaves as they come in is to select them all at the end.
pub proof fn law_online_selection(leaves: Seq<ExecutionLeafV>, count: int)
    requires
        0 <= count <= leaves.len(),
    ensures
        SelectedExecutionLeavesV::empty().pushed_all(leaves, count).retained == selected(
            leaves.subrange(0, count),
        ),
        SelectedExecutionLeavesV::empty().pushed_all(leaves, count).got_stuck == any_stuck(
            leaves.subrange(0, count),
            count,
        ),
    decreases count,
{
    let seen = leaves.subrange(0, count);
    if count == 0 {
        assert(seen =~= Seq::<ExecutionLeafV>::empty());
    } else {
        law_online_selection(leaves, count - 1);
        let before = leaves.subrange(0, count - 1);
        let leaf = leaves[count - 1];
        lemma_subrange_step(leaves, count);
        lemma_within_depth_push(before, leaf, count - 1);
        assert(seen[count - 1] == leaf);
        lemma_within_depth_stuck(before, count - 1);
    }
}

proof fn lemma_within_depth_stuck(leaves: Seq<ExecutionLeafV>, count: int)
    requires
        0 <= count <= leaves.len(),
    ensures
        any_stuck(leaves, count) ==> within_depth(leaves, count).len() > 0,
    decreases count,
{
    if count > 0 {
        lemma_within_depth_stuck(leaves, count - 1);
    }
}

// ---------------------------------------------------------------------------------------------
// Equal leaves
// ---------------------------------------------------------------------------------------------
/// What two leaves have in common that are reported as one.
pub open spec fn configuration_of(leaf: ExecutionLeafV) -> (TermV, Seq<PredicateV>) {
    (leaf.pattern.term, sorted::<Predicate>(leaf.pattern.constraints))
}

/// Whether a leaf stands for no configuration.
pub open spec fn stands_for_none(leaf: ExecutionLeafV) -> bool {
    leaf.halt_reason is Trivial || leaf.halt_reason is Vacuous
}

/// The leaves from `from` on that are not equal to one seen before, behind `found`.
pub open spec fn merged_from(
    leaves: Seq<ExecutionLeafV>,
    seen: Seq<(TermV, Seq<PredicateV>)>,
    found: Seq<ExecutionLeafV>,
    from: int,
) -> Seq<ExecutionLeafV>
    decreases leaves.len() - from,
{
    if from >= leaves.len() {
        found
    } else if stands_for_none(leaves[from]) {
        merged_from(leaves, seen, found.push(leaves[from]), from + 1)
    } else if seen.contains(configuration_of(leaves[from])) {
        merged_from(leaves, seen, found, from + 1)
    } else {
        merged_from(
            leaves,
            seen.push(configuration_of(leaves[from])),
            found.push(leaves[from]),
            from + 1,
        )
    }
}

/// The leaves with one for each configuration, the first; trivial and vacuous leaves stay.
pub open spec fn merged(leaves: Seq<ExecutionLeafV>) -> Seq<ExecutionLeafV> {
    merged_from(leaves, Seq::empty(), Seq::empty(), 0)
}

/// Keep the first leaf of each configuration.
pub fn merge_equal_final_leaves(leaves: Vec<ExecutionLeaf>) -> (result: Vec<ExecutionLeaf>)
    ensures
        deep(result@) == merged(deep(leaves@)),
{
    let mut seen: Vec<(Term, Vec<Predicate>)> = Vec::new();
    let mut result: Vec<ExecutionLeaf> = Vec::new();
    let mut i: usize = 0;
    while i < leaves.len()
        invariant
            i <= leaves.len(),
            merged(deep(leaves@)) == merged_from(
                deep(leaves@),
                deep(seen@),
                deep(result@),
                i as int,
            ),
        decreases leaves.len() - i,
    {
        assert(deep(leaves@)[i as int] == leaves[i as int]@);
        let leaf = &leaves[i];
        if matches!(leaf.halt_reason, HaltReason::Trivial | HaltReason::Vacuous) {
            result.push(leaf.duplicate());
        } else {
            let key = (leaf.pattern.term.duplicate(), into_sorted(&leaf.pattern.constraints));
            if !contains(&seen, &key) {
                seen.push(key);
                result.push(leaf.duplicate());
            }
        }
        i += 1;
    }
    result
}

/// Whether no two leaves have the same configuration, but for those without one.
pub open spec fn configurations_differ(leaves: Seq<ExecutionLeafV>) -> bool {
    forall|i: int, j: int|
        0 <= i < j < leaves.len() && !stands_for_none(#[trigger] leaves[i]) && !stands_for_none(
            #[trigger] leaves[j],
        ) ==> configuration_of(leaves[i]) != configuration_of(leaves[j])
}

/// Whether `leaves` hold a leaf with the configuration of `leaf`, or `leaf` itself where it has
/// none.
pub open spec fn represents(leaves: Seq<ExecutionLeafV>, leaf: ExecutionLeafV) -> bool {
    if stands_for_none(leaf) {
        leaves.contains(leaf)
    } else {
        has_configuration(leaves, configuration_of(leaf))
    }
}

/// Whether one of the leaves has the given configuration.
pub open spec fn has_configuration(
    leaves: Seq<ExecutionLeafV>,
    configuration: (TermV, Seq<PredicateV>),
) -> bool {
    exists|i: int|
        0 <= i < leaves.len() && !stands_for_none(#[trigger] leaves[i]) && configuration_of(
            leaves[i],
        ) == configuration
}

/// Whether `seen` are the configurations of `found`.
spec fn seen_in(seen: Seq<(TermV, Seq<PredicateV>)>, found: Seq<ExecutionLeafV>) -> bool {
    &&& forall|i: int|
        0 <= i < found.len() && !stands_for_none(#[trigger] found[i]) ==> seen.contains(
            configuration_of(found[i]),
        )
    &&& forall|k: int| 0 <= k < seen.len() ==> has_configuration(found, #[trigger] seen[k])
}

proof fn lemma_configuration_push(
    leaves: Seq<ExecutionLeafV>,
    more: ExecutionLeafV,
    configuration: (TermV, Seq<PredicateV>),
)
    requires
        has_configuration(leaves, configuration),
    ensures
        has_configuration(leaves.push(more), configuration),
{
    let i = choose|i: int|
        0 <= i < leaves.len() && !stands_for_none(#[trigger] leaves[i]) && configuration_of(
            leaves[i],
        ) == configuration;
    assert(leaves.push(more)[i] == leaves[i]);
}

proof fn lemma_represents_push(
    leaves: Seq<ExecutionLeafV>,
    more: ExecutionLeafV,
    leaf: ExecutionLeafV,
)
    requires
        represents(leaves, leaf),
    ensures
        represents(leaves.push(more), leaf),
{
    let after = leaves.push(more);
    if stands_for_none(leaf) {
        let i = choose|i: int| 0 <= i < leaves.len() && leaves[i] == leaf;
        assert(after[i] == leaf);
    } else {
        lemma_configuration_push(leaves, more, configuration_of(leaf));
    }
}

proof fn lemma_merged(
    leaves: Seq<ExecutionLeafV>,
    seen: Seq<(TermV, Seq<PredicateV>)>,
    found: Seq<ExecutionLeafV>,
    from: int,
)
    requires
        0 <= from <= leaves.len(),
        seen_in(seen, found),
        configurations_differ(found),
        forall|i: int| 0 <= i < from ==> represents(found, #[trigger] leaves[i]),
        forall|i: int| 0 <= i < found.len() ==> leaves.contains(#[trigger] found[i]),
    ensures
        ({
            let result = merged_from(leaves, seen, found, from);
            &&& configurations_differ(result)
            &&& forall|i: int| 0 <= i < leaves.len() ==> represents(result, #[trigger] leaves[i])
            &&& forall|i: int| 0 <= i < result.len() ==> leaves.contains(#[trigger] result[i])
        }),
    decreases leaves.len() - from,
{
    if from < leaves.len() {
        let leaf = leaves[from];
        let more = found.push(leaf);
        let key = configuration_of(leaf);
        assert(more[found.len() as int] == leaf);
        assert forall|i: int| 0 <= i < found.len() implies more[i] == found[i] by {}
        assert forall|i: int| 0 <= i < from implies represents(more, #[trigger] leaves[i]) by {
            lemma_represents_push(found, leaf, leaves[i]);
        }
        assert forall|k: int| 0 <= k < seen.len() implies has_configuration(
            more,
            #[trigger] seen[k],
        ) by {
            lemma_configuration_push(found, leaf, seen[k]);
        }
        if stands_for_none(leaf) {
            assert(more.contains(leaf));
            assert forall|i: int| 0 <= i < more.len() && !stands_for_none(
                #[trigger] more[i],
            ) implies seen.contains(configuration_of(more[i])) by {
                assert(more[i] == found[i]);
            }
            lemma_merged(leaves, seen, more, from + 1);
        } else if seen.contains(key) {
            let k = choose|k: int| 0 <= k < seen.len() && seen[k] == key;
            assert(has_configuration(found, seen[k]));
            lemma_merged(leaves, seen, found, from + 1);
        } else {
            let keys = seen.push(key);
            assert(!stands_for_none(more[found.len() as int]));
            assert(has_configuration(more, key));
            assert forall|i: int| 0 <= i < more.len() && !stands_for_none(
                #[trigger] more[i],
            ) implies keys.contains(configuration_of(more[i])) by {
                if i < found.len() {
                    assert(more[i] == found[i]);
                    let k = choose|k: int|
                        0 <= k < seen.len() && seen[k] == configuration_of(found[i]);
                    assert(keys[k] == configuration_of(more[i]));
                } else {
                    assert(keys[seen.len() as int] == key);
                }
            }
            assert forall|k: int| 0 <= k < keys.len() implies has_configuration(
                more,
                #[trigger] keys[k],
            ) by {
                if k < seen.len() {
                    assert(has_configuration(more, seen[k]));
                }
            }
            lemma_merged(leaves, keys, more, from + 1);
        }
    }
}

/// Whether two leaves have the same term and the same set of constraints.
pub open spec fn same_configuration(left: ExecutionLeafV, right: ExecutionLeafV) -> bool {
    left.pattern.term == right.pattern.term && same_items(
        left.pattern.constraints,
        right.pattern.constraints,
    )
}

/// Whether an earlier leaf than the one at `at` has its configuration.
pub open spec fn repeats(leaves: Seq<ExecutionLeafV>, at: int) -> bool {
    !stands_for_none(leaves[at]) && exists|i: int|
        0 <= i < at && !stands_for_none(#[trigger] leaves[i]) && same_configuration(
            leaves[i],
            leaves[at],
        )
}

/// The first `count` leaves without those that repeat an earlier one.
pub open spec fn without_repeats(leaves: Seq<ExecutionLeafV>, count: int) -> Seq<ExecutionLeafV>
    decreases count,
{
    if count <= 0 {
        Seq::empty()
    } else if repeats(leaves, count - 1) {
        without_repeats(leaves, count - 1)
    } else {
        without_repeats(leaves, count - 1).push(leaves[count - 1])
    }
}

/// Whether no two leaves have the same term and the same set of constraints, but for those that
/// stand for no configuration.
pub open spec fn none_repeats(leaves: Seq<ExecutionLeafV>) -> bool {
    forall|i: int, j: int|
        0 <= i < j < leaves.len() && !stands_for_none(#[trigger] leaves[i]) && !stands_for_none(
            #[trigger] leaves[j],
        ) ==> !same_configuration(leaves[i], leaves[j])
}

proof fn lemma_configuration(left: ExecutionLeafV, right: ExecutionLeafV)
    ensures
        configuration_of(left) == configuration_of(right) <==> same_configuration(left, right),
{
    law_sorted_is_canonical::<Predicate>(left.pattern.constraints, right.pattern.constraints);
}

/// Whether `seen` are the configurations of the first `count` leaves.
spec fn seen_upto(
    seen: Seq<(TermV, Seq<PredicateV>)>,
    leaves: Seq<ExecutionLeafV>,
    count: int,
) -> bool {
    forall|key: (TermV, Seq<PredicateV>)| #[trigger]
        seen.contains(key) <==> has_configuration(leaves.take(count), key)
}

proof fn lemma_merged_without_repeats(
    leaves: Seq<ExecutionLeafV>,
    seen: Seq<(TermV, Seq<PredicateV>)>,
    from: int,
)
    requires
        0 <= from <= leaves.len(),
        seen_upto(seen, leaves, from),
    ensures
        merged_from(leaves, seen, without_repeats(leaves, from), from) == without_repeats(
            leaves,
            leaves.len() as int,
        ),
    decreases leaves.len() - from,
{
    if from < leaves.len() {
        let leaf = leaves[from];
        let key = configuration_of(leaf);
        let before = leaves.take(from);
        let after = leaves.take(from + 1);
        assert(after =~= before.push(leaf));
        assert(after[from] == leaf);
        if has_configuration(before, key) {
            let i = choose|i: int|
                0 <= i < before.len() && !stands_for_none(#[trigger] before[i])
                    && configuration_of(before[i]) == key;
            assert(leaves[i] == before[i]);
            lemma_configuration(leaves[i], leaf);
        }
        if repeats(leaves, from) {
            let i = choose|i: int|
                0 <= i < from && !stands_for_none(#[trigger] leaves[i]) && same_configuration(
                    leaves[i],
                    leaf,
                );
            assert(before[i] == leaves[i]);
            lemma_configuration(leaves[i], leaf);
        }
        assert(!stands_for_none(leaf) ==> (seen.contains(key) <==> repeats(leaves, from)));
        let keys = if stands_for_none(leaf) || seen.contains(key) {
            seen
        } else {
            seen.push(key)
        };
        assert forall|other: (TermV, Seq<PredicateV>)| #[trigger]
            keys.contains(other) <==> has_configuration(after, other) by {
            if has_configuration(before, other) {
                lemma_configuration_push(before, leaf, other);
            }
            if has_configuration(after, other) {
                let i = choose|i: int|
                    0 <= i < after.len() && !stands_for_none(#[trigger] after[i])
                        && configuration_of(after[i]) == other;
                if i < from {
                    assert(before[i] == after[i]);
                }
            }
            lemma_push_contains(seen, key, other);
            if !stands_for_none(leaf) {
                assert(!stands_for_none(after[from]));
                assert(has_configuration(after, key));
            }
            assert(seen.contains(other) <==> has_configuration(before, other));
        }
        lemma_merged_without_repeats(leaves, keys, from + 1);
    }
}

proof fn lemma_nothing_repeats(leaves: Seq<ExecutionLeafV>, count: int)
    requires
        none_repeats(leaves),
        0 <= count <= leaves.len(),
    ensures
        without_repeats(leaves, count) == leaves.take(count),
    decreases count,
{
    if count > 0 {
        lemma_nothing_repeats(leaves, count - 1);
        assert(!repeats(leaves, count - 1));
        assert(leaves.take(count) =~= leaves.take(count - 1).push(leaves[count - 1]));
    } else {
        assert(leaves.take(0) =~= Seq::empty());
    }
}

/// Merging drops exactly the leaves that repeat the term and the set of constraints of an earlier
/// leaf, where leaves without a configuration neither repeat nor are repeated; so none repeats
/// afterwards, and to merge again changes nothing.
pub proof fn law_merged_without_repeats(leaves: Seq<ExecutionLeafV>)
    ensures
        merged(leaves) == without_repeats(leaves, leaves.len() as int),
        none_repeats(merged(leaves)),
        merged(merged(leaves)) == merged(leaves),
{
    let none = Seq::<(TermV, Seq<PredicateV>)>::empty();
    let once = merged(leaves);
    assert(leaves.take(0) =~= Seq::empty());
    lemma_merged_without_repeats(leaves, none, 0);
    law_merged(leaves);
    assert forall|i: int, j: int| 0 <= i < j < once.len() && !stands_for_none(
        #[trigger] once[i],
    ) && !stands_for_none(#[trigger] once[j]) implies !same_configuration(once[i], once[j]) by {
        lemma_configuration(once[i], once[j]);
    }
    assert(once.take(0) =~= Seq::empty());
    lemma_merged_without_repeats(once, none, 0);
    lemma_nothing_repeats(once, once.len() as int);
    assert(once.take(once.len() as int) =~= once);
}

/// Merging keeps leaves of its input, one for each configuration, and all leaves without one.
pub proof fn law_merged(leaves: Seq<ExecutionLeafV>)
    ensures
        configurations_differ(merged(leaves)),
        forall|i: int| 0 <= i < leaves.len() ==> represents(merged(leaves), #[trigger] leaves[i]),
        forall|i: int|
            0 <= i < merged(leaves).len() ==> leaves.contains(#[trigger] merged(leaves)[i]),
{
    lemma_merged(leaves, Seq::empty(), Seq::empty(), 0);
}

} // verus!
