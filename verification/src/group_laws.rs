//! The order in which rules are tried.

use vstd::prelude::*;
use crate::assoc::{
    assoc_bound_from, assoc_from, assoc_pushed, key_position_from, law_pushed, law_updated,
};
use crate::equations::{groups_at, groups_for, grouped_rules, merged_groups};
use crate::ops::{key_precedes, key_precedes_from, Keyed};
use crate::rule::{
    index_of, rules_at, theory_with, GroupsV, RewriteRuleV, TermIndex, TermIndexV, TheoryV,
};

verus! {

/// Whether groups stand by ascending priority, none twice.
pub open spec fn ascending(groups: GroupsV) -> bool {
    forall|i: int, j: int| 0 <= i < j < groups.len() ==> groups[i].0 < groups[j].0
}

/// Whether the groups at each index of a theory stand by ascending priority.
pub open spec fn all_ascending(theory: TheoryV) -> bool {
    forall|i: int| 0 <= i < theory.len() ==> ascending((#[trigger] theory[i]).1)
}

/// The rules of a priority in `groups` from `from` on.
pub open spec fn rules_of_priority(groups: GroupsV, priority: u8, from: int) -> Seq<RewriteRuleV> {
    match assoc_from(groups, priority, from) {
        Some(rules) => rules,
        None => Seq::empty(),
    }
}

proof fn lemma_priority_order(left: u8, right: u8)
    ensures
        key_precedes(u8::key(left), u8::key(right)) <==> left < right,
{
    let a = u8::key(left);
    let b = u8::key(right);
    reveal_with_fuel(key_precedes_from, 3);
}

proof fn lemma_bound_ascending(
    groups: GroupsV,
    priority: u8,
    rules: Seq<RewriteRuleV>,
    from: int,
)
    requires
        ascending(groups),
        0 <= from <= groups.len(),
        forall|i: int| 0 <= i < from ==> (#[trigger] groups[i]).0 < priority,
    ensures
        ascending(assoc_bound_from::<u8, Seq<RewriteRuleV>>(groups, priority, rules, from)),
    decreases groups.len() - from,
{
    let made = assoc_bound_from::<u8, Seq<RewriteRuleV>>(groups, priority, rules, from);
    if from < groups.len() {
        lemma_priority_order(priority, groups[from].0);
        if groups[from].0 == priority {
            assert(made == groups.update(from, (priority, rules)));
        } else if priority < groups[from].0 {
            assert(made == groups.insert(from, (priority, rules)));
            assert forall|i: int, j: int| 0 <= i < j < made.len() implies made[i].0
                < made[j].0 by {
                let before = |k: int| if k < from { k } else { k - 1 };
                assert(made[i].0 == if i == from { priority } else { groups[before(i)].0 });
                assert(made[j].0 == if j == from { priority } else { groups[before(j)].0 });
                if i == from {
                    assert(groups[from].0 <= groups[j - 1].0);
                } else if j == from {
                    assert(groups[i].0 < priority);
                } else {
                    assert(groups[before(i)].0 < groups[before(j)].0);
                }
            }
        } else {
            lemma_bound_ascending(groups, priority, rules, from + 1);
        }
    } else {
        assert(made == groups.push((priority, rules)));
    }
}

proof fn lemma_pushed_ascending(groups: GroupsV, priority: u8, rule: RewriteRuleV)
    requires
        ascending(groups),
    ensures
        ascending(assoc_pushed::<u8, RewriteRuleV>(groups, priority, rule)),
{
    match key_position_from(groups, priority, 0) {
        Some(i) => {
            law_updated(groups, priority, groups[i].1.push(rule), priority);
            lemma_position(groups, priority, 0);
        },
        None => {
            lemma_bound_ascending(groups, priority, seq![rule], 0);
        },
    }
}

proof fn lemma_position(groups: GroupsV, priority: u8, from: int)
    requires
        0 <= from,
        key_position_from(groups, priority, from) is Some,
    ensures
        ({
            let at = key_position_from(groups, priority, from)->0;
            0 <= at < groups.len() && groups[at].0 == priority
        }),
    decreases groups.len() - from,
{
    if from < groups.len() && groups[from].0 != priority {
        lemma_position(groups, priority, from + 1);
    }
}

proof fn lemma_grouped(
    found: GroupsV,
    priority: u8,
    rules: Seq<RewriteRuleV>,
    from: int,
    other: u8,
)
    requires
        0 <= from <= rules.len(),
        ascending(found),
    ensures
        ({
            let made = grouped_rules(found, priority, rules, from);
            &&& ascending(made)
            &&& rules_of_priority(made, other, 0) == rules_of_priority(found, other, 0) + (
            if other == priority {
                rules.skip(from)
            } else {
                Seq::empty()
            })
        }),
    decreases rules.len() - from,
{
    let made = grouped_rules(found, priority, rules, from);
    let before = rules_of_priority(found, other, 0);
    if from < rules.len() {
        let next = assoc_pushed::<u8, RewriteRuleV>(found, priority, rules[from]);
        lemma_pushed_ascending(found, priority, rules[from]);
        law_pushed::<u8, RewriteRuleV>(found, priority, rules[from], other);
        lemma_grouped(next, priority, rules, from + 1, other);
        if other == priority {
            assert(rules_of_priority(next, other, 0) =~= before.push(rules[from]));
            assert(before.push(rules[from]) + rules.skip(from + 1) =~= before + rules.skip(from));
        }
    } else {
        assert(before + rules.skip(from) =~= before);
        assert(before + Seq::<RewriteRuleV>::empty() =~= before);
    }
}

proof fn lemma_none_behind(groups: GroupsV, at: int, from: int)
    requires
        ascending(groups),
        0 <= at < from,
        at < groups.len(),
    ensures
        assoc_from(groups, groups[at].0, from) is None,
    decreases groups.len() - from,
{
    if from < groups.len() {
        assert(groups[at].0 < groups[from].0);
        lemma_none_behind(groups, at, from + 1);
    }
}

proof fn lemma_merged(found: GroupsV, groups: GroupsV, from: int, priority: u8)
    requires
        0 <= from <= groups.len(),
        ascending(found),
        ascending(groups),
    ensures
        ({
            let made = merged_groups(found, groups, from);
            &&& ascending(made)
            &&& rules_of_priority(made, priority, 0) == rules_of_priority(found, priority, 0)
                + rules_of_priority(groups, priority, from)
        }),
    decreases groups.len() - from,
{
    let before = rules_of_priority(found, priority, 0);
    if from < groups.len() {
        let (own, rules) = groups[from];
        let next = grouped_rules(found, own, rules, 0);
        lemma_grouped(found, own, rules, 0, priority);
        lemma_merged(next, groups, from + 1, priority);
        assert(rules.skip(0) =~= rules);
        if own == priority {
            lemma_none_behind(groups, from, from + 1);
            assert(before + rules + Seq::<RewriteRuleV>::empty() =~= before + rules);
        } else {
            assert(before + Seq::<RewriteRuleV>::empty() =~= before);
        }
    } else {
        assert(before + Seq::<RewriteRuleV>::empty() =~= before);
    }
}

proof fn lemma_groups_at(theory: TheoryV, index: TermIndexV, from: int)
    requires
        all_ascending(theory),
        0 <= from,
    ensures
        assoc_from(theory, index, from) is Some ==> ascending(assoc_from(theory, index, from)->0),
    decreases theory.len() - from,
{
    if from < theory.len() && theory[from].0 != index {
        lemma_groups_at(theory, index, from + 1);
    }
}

/// The rules for a term stand by ascending priority. Those of one priority are the rules of the
/// theory for terms like it, in the order in which they were added, and behind these the rules
/// whose left-hand side is a variable: all of them, and no others.
pub proof fn law_rules_by_priority(theory: TheoryV, index: TermIndexV, priority: u8)
    requires
        all_ascending(theory),
    ensures
        ascending(groups_for(theory, index)),
        rules_of_priority(groups_for(theory, index), priority, 0) == rules_at(
            theory,
            index,
            priority,
        ) + (if index is Variable {
            Seq::empty()
        } else {
            rules_at(theory, TermIndexV::Variable, priority)
        }),
{
    let own = groups_at(theory, index);
    let general = groups_at(theory, TermIndexV::Variable);
    lemma_groups_at(theory, index, 0);
    lemma_groups_at(theory, TermIndexV::Variable, 0);
    lemma_merged(Seq::empty(), own, 0, priority);
    let first = merged_groups(Seq::empty(), own, 0);
    lemma_merged(first, general, 0, priority);
    assert(Seq::<RewriteRuleV>::empty() + rules_at(theory, index, priority) =~= rules_at(
        theory,
        index,
        priority,
    ));
    assert(rules_at(theory, index, priority) + Seq::<RewriteRuleV>::empty() =~= rules_at(
        theory,
        index,
        priority,
    ));
}

proof fn lemma_bound_theory(theory: TheoryV, index: TermIndexV, groups: GroupsV, from: int)
    requires
        all_ascending(theory),
        ascending(groups),
        0 <= from <= theory.len(),
    ensures
        all_ascending(assoc_bound_from::<TermIndex, GroupsV>(theory, index, groups, from)),
    decreases theory.len() - from,
{
    let made = assoc_bound_from::<TermIndex, GroupsV>(theory, index, groups, from);
    if from < theory.len() && theory[from].0 != index && !key_precedes(
        TermIndex::key(index),
        TermIndex::key(theory[from].0),
    ) {
        lemma_bound_theory(theory, index, groups, from + 1);
    } else {
        assert forall|i: int| 0 <= i < made.len() implies ascending((#[trigger] made[i]).1) by {
            if i < from {
                assert(made[i] == theory[i]);
            } else if i > from && made.len() == theory.len() {
                assert(made[i] == theory[i]);
            } else if i > from {
                assert(made[i] == theory[i - 1]);
            } else {
                assert(made[i].1 == groups);
            }
        }
    }
}

/// To add a rule to a theory keeps the order of its priorities.
pub proof fn law_theory_stays_ordered(theory: TheoryV, rule: RewriteRuleV)
    requires
        all_ascending(theory),
    ensures
        all_ascending(theory_with(theory, rule)),
{
    let index = index_of(rule.lhs);
    match key_position_from(theory, index, 0) {
        Some(i) => {
            law_updated(theory, index, theory[i].1, index);
            lemma_pushed_ascending(theory[i].1, rule.attributes.priority, rule);
            let made = theory_with(theory, rule);
            assert forall|j: int| 0 <= j < made.len() implies ascending(
                (#[trigger] made[j]).1,
            ) by {
                if j != i {
                    assert(made[j] == theory[j]);
                }
            }
        },
        None => {
            let groups = seq![(rule.attributes.priority, seq![rule])];
            lemma_bound_theory(theory, index, groups, 0);
        },
    }
}

} // verus!
