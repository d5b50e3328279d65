//! Matching finds what there is to find: a pattern matches each of its concrete instances.

use vstd::prelude::*;
use crate::assoc::{assoc, assoc_bound_from};
use crate::collection_laws::{
    all_replaced, lemma_list_children, lemma_list_normal, lemma_list_replaced, lemma_list_rest,
    values_normal,
};
use crate::construct::{lemma_variables_into, list_term, occurs, occurs_from, variables_of};
use crate::kernel::Kernel;
use crate::match_collections::{
    list_rest_step, lists_step, open_list, prefix_pairs, prefix_remainder, suffix_pairs,
};
use crate::match_laws::{lemma_assoc_entry, lemma_normal_child, normal};
use crate::matcher::{argument_pairs, list_rest, matched, pair_step, terms_matched, MATCH_STEPS};
use crate::matching::{
    enqueued, enqueued_all, variable_step, Context, MatchMode, MatchResultV, PairRemainderV,
    ProgressV,
};
use crate::model::{intersection, law_intersection};
use crate::ops::{children, key_precedes, lemma_child_smaller, rest_seq, sort_of, Keyed};
use crate::overload::resolved_overloads;
use crate::rebuild::with_children;
use crate::substitution::{
    composed_values, substituted, substituted_child, substituted_children, SubstitutionV,
};
use crate::term::{CollectionDefinitionV, TermV, Variable, VariableV};

verus! {

// ---------------------------------------------------------------------------------------------
// Patterns and instances
// ---------------------------------------------------------------------------------------------
/// Whether a term is concrete: built from constructors, injections, domain values and collections,
/// where every list is one of items only.
pub open spec fn concrete(term: TermV) -> bool
    decreases term, 1int, 0int,
{
    (match term {
        TermV::And(_, _) => false,
        TermV::Variable(_) => false,
        TermV::Application { symbol, .. } => symbol.attributes.symbol_type is Constructor,
        TermV::KList { rest, .. } => rest is None,
        _ => true,
    }) && concrete_from(term, 0)
}

/// Whether the children from `from` on are concrete.
pub open spec fn concrete_from(term: TermV, from: int) -> bool
    decreases term, 0int, children(term).len() - from,
{
    if 0 <= from < children(term).len() {
        proof {
            lemma_child_smaller(term, from);
        }
        concrete(children(term)[from]) && concrete_from(term, from + 1)
    } else {
        true
    }
}

/// Whether a term is a simple pattern: built from variables, constructors, injections, domain
/// values and lists, where the frame of a list, if it has one, is a variable.
pub open spec fn simple(term: TermV) -> bool
    decreases term, 1int, 0int,
{
    (match term {
        TermV::And(_, _) => false,
        TermV::Application { symbol, .. } => symbol.attributes.symbol_type is Constructor,
        TermV::KMap { .. } => false,
        TermV::KSet { .. } => false,
        TermV::KList { rest, .. } => rest is Some ==> *rest->0 is Variable,
        _ => true,
    }) && simple_from(term, 0)
}

/// Whether the children from `from` on are simple patterns.
pub open spec fn simple_from(term: TermV, from: int) -> bool
    decreases term, 0int, children(term).len() - from,
{
    if 0 <= from < children(term).len() {
        proof {
            lemma_child_smaller(term, from);
        }
        simple(children(term)[from]) && simple_from(term, from + 1)
    } else {
        true
    }
}

/// Whether a substitution gives variables terms of their sorts, in normal form.
pub open spec fn well_sorted(substitution: SubstitutionV) -> bool {
    &&& values_normal(substitution)
    &&& forall|i: int|
        0 <= i < substitution.len() ==> sort_of((#[trigger] substitution[i]).1)
            == substitution[i].0.sort
}

/// The number of symbols, variables and values in a term.
pub open spec fn size(term: TermV) -> nat
    decreases term, 1int, 0int,
{
    1 + size_from(term, 0)
}

/// The number of symbols, variables and values in the children from `from` on.
pub open spec fn size_from(term: TermV, from: int) -> nat
    decreases term, 0int, children(term).len() - from,
{
    if 0 <= from < children(term).len() {
        proof {
            lemma_child_smaller(term, from);
        }
        size(children(term)[from]) + size_from(term, from + 1)
    } else {
        0
    }
}

/// The sizes of `terms` together.
pub open spec fn total(terms: Seq<TermV>, from: int) -> nat
    decreases terms.len() - from,
{
    if 0 <= from < terms.len() {
        size(terms[from]) + total(terms, from + 1)
    } else {
        0
    }
}

/// Whether `subject` is the instance of `pattern` that a substitution makes.
pub open spec fn instance(pattern: TermV, subject: TermV, last: SubstitutionV) -> bool {
    &&& simple(pattern) && normal(pattern)
    &&& concrete(subject) && normal(subject)
    &&& substituted(pattern, last) == subject
}

/// Whether all bindings of a substitution are those of `last`, to concrete terms.
pub open spec fn agrees(substitution: SubstitutionV, last: SubstitutionV) -> bool {
    forall|i: int|
        0 <= i < substitution.len() ==> assoc(last, (#[trigger] substitution[i]).0) == Some(
            substitution[i].1,
        ) && concrete(substitution[i].1) && normal(substitution[i].1)
}

proof fn lemma_concrete_child(term: TermV, from: int, i: int)
    requires
        concrete_from(term, from),
        0 <= from <= i < children(term).len(),
    ensures
        concrete(children(term)[i]),
    decreases i - from,
{
    if from < i {
        lemma_concrete_child(term, from + 1, i);
    }
}

proof fn lemma_simple_child(term: TermV, from: int, i: int)
    requires
        simple_from(term, from),
        0 <= from <= i < children(term).len(),
    ensures
        simple(children(term)[i]),
    decreases i - from,
{
    if from < i {
        lemma_simple_child(term, from + 1, i);
    }
}

proof fn lemma_concrete_children(term: TermV, from: int)
    requires
        0 <= from <= children(term).len(),
        forall|i: int| from <= i < children(term).len() ==> concrete(#[trigger] children(term)[i]),
    ensures
        concrete_from(term, from),
    decreases children(term).len() - from,
{
    if from < children(term).len() {
        lemma_child_smaller(term, from);
        lemma_concrete_children(term, from + 1);
    }
}

/// A concrete term has no variables.
proof fn lemma_no_variables(variable: VariableV, term: TermV)
    requires
        concrete(term),
    ensures
        !occurs(variable, term),
    decreases term, 1int, 0int,
{
    lemma_no_variables_from(variable, term, 0);
}

proof fn lemma_no_variables_from(variable: VariableV, term: TermV, from: int)
    requires
        0 <= from,
        concrete_from(term, 0),
    ensures
        !occurs_from(variable, term, from),
    decreases term, 0int, children(term).len() - from,
{
    if from < children(term).len() {
        lemma_child_smaller(term, from);
        lemma_concrete_child(term, 0, from);
        lemma_no_variables(variable, children(term)[from]);
        lemma_no_variables_from(variable, term, from + 1);
    }
}

/// A substitution leaves a concrete term as it is.
proof fn lemma_concrete_stays(term: TermV, substitution: SubstitutionV)
    requires
        concrete(term),
        normal(term),
    ensures
        substituted(term, substitution) == term,
    decreases term,
{
    assert forall|i: int| 0 <= i < children(term).len() implies substituted_child(
        term,
        i,
        substitution,
    ) == children(term)[i] by {
        lemma_child_smaller(term, i);
        lemma_concrete_child(term, 0, i);
        lemma_normal_child(term, 0, i);
        lemma_concrete_stays(children(term)[i], substitution);
    }
    assert(substituted_children(term, substitution) =~= children(term));
}

proof fn lemma_size_children(term: TermV, from: int)
    requires
        0 <= from <= children(term).len(),
    ensures
        size_from(term, from) == total(children(term), from),
    decreases children(term).len() - from,
{
    if from < children(term).len() {
        lemma_size_children(term, from + 1);
    }
}

proof fn lemma_total_joined(left: Seq<TermV>, right: Seq<TermV>, from: int)
    requires
        0 <= from <= left.len(),
    ensures
        total(left + right, from) == total(left, from) + total(right, 0),
    decreases left.len() - from,
{
    let all = left + right;
    if from < left.len() {
        assert(all[from] == left[from]);
        lemma_total_joined(left, right, from + 1);
    } else {
        lemma_total_shifted(left, right, 0);
    }
}

proof fn lemma_total_shifted(left: Seq<TermV>, right: Seq<TermV>, from: int)
    requires
        0 <= from <= right.len(),
    ensures
        total(left + right, left.len() + from) == total(right, from),
    decreases right.len() - from,
{
    if from < right.len() {
        assert((left + right)[left.len() + from] == right[from]);
        lemma_total_shifted(left, right, from + 1);
    }
}

// ---------------------------------------------------------------------------------------------
// Pairs
// ---------------------------------------------------------------------------------------------
/// The patterns of `pairs`.
pub open spec fn patterns_of(pairs: Seq<(TermV, TermV)>) -> Seq<TermV> {
    Seq::new(pairs.len(), |i: int| pairs[i].0)
}

/// Whether all of `pairs` are instances.
pub open spec fn all_instances(pairs: Seq<(TermV, TermV)>, last: SubstitutionV) -> bool {
    forall|i: int|
        0 <= i < pairs.len() ==> instance((#[trigger] pairs[i]).0, pairs[i].1, last)
}

/// Whether a step takes up a pair as it should: it adds pairs of instances, smaller together than
/// the pair, and binds what it binds as `last` does.
spec fn good_step(
    mode: MatchMode,
    rest: ProgressV,
    next: ProgressV,
    pattern: TermV,
    last: SubstitutionV,
) -> bool {
    &&& rest.queue.is_prefix_of(next.queue)
    &&& next.map_queue == rest.map_queue
    &&& all_instances(next.queue.skip(rest.queue.len() as int), last)
    &&& total(patterns_of(next.queue.skip(rest.queue.len() as int)), 0) < size(pattern)
    &&& agrees(next.substitution, last)
    &&& mode is Rewrite ==> next.indeterminate == rest.indeterminate
}

proof fn lemma_value(substitution: SubstitutionV, variable: VariableV)
    requires
        well_sorted(substitution),
        assoc(substitution, variable) is Some,
    ensures
        sort_of(assoc(substitution, variable)->0) == variable.sort,
        normal(assoc(substitution, variable)->0),
{
    lemma_assoc_entry(substitution, variable, 0);
    let i: int = choose|i: int|
        0 <= i < substitution.len() && #[trigger] substitution[i] == (
            variable,
            assoc(substitution, variable)->0,
        );
    assert(sort_of(substitution[i].1) == substitution[i].0.sort);
    assert(normal(substitution[i].1));
}

proof fn lemma_bound_entries(
    substitution: SubstitutionV,
    variable: VariableV,
    term: TermV,
    from: int,
    after: SubstitutionV,
)
    requires
        0 <= from,
        after == assoc_bound_from::<Variable, TermV>(
            substitution,
            variable,
            term,
            from,
        ),
    ensures
        forall|i: int|
            0 <= i < after.len() ==> (#[trigger] after[i]) == (variable, term)
                || substitution.contains(after[i]),
    decreases substitution.len() - from,
{
    if from < substitution.len() && substitution[from].0 != variable
        && !key_precedes(
        <Variable as Keyed>::key(variable),
        <Variable as Keyed>::key(substitution[from].0),
    ) {
        lemma_bound_entries(substitution, variable, term, from + 1, after);
    } else {
        assert forall|i: int| 0 <= i < after.len() implies (#[trigger] after[i]) == (variable, term)
            || substitution.contains(after[i]) by {
            if from >= substitution.len() {
                if i < substitution.len() {
                    assert(after[i] == substitution[i]);
                }
            } else if substitution[from].0 == variable {
                if i != from {
                    assert(after[i] == substitution[i]);
                }
            } else if i < from {
                assert(after[i] == substitution[i]);
            } else if i > from {
                assert(after[i] == substitution[i - 1]);
            }
        }
    }
}

proof fn lemma_nothing_added(rest: ProgressV, next: ProgressV, last: SubstitutionV)
    requires
        next.queue == rest.queue,
    ensures
        rest.queue.is_prefix_of(next.queue),
        all_instances(next.queue.skip(rest.queue.len() as int), last),
        total(patterns_of(next.queue.skip(rest.queue.len() as int)), 0) == 0,
{
    assert(next.queue.skip(rest.queue.len() as int) =~= Seq::empty());
}

/// A variable takes what the instance has in its place.
proof fn lemma_variable<'a, K: Kernel>(
    context: Context<'a, K>,
    rest: ProgressV,
    variable: VariableV,
    subject: TermV,
    last: SubstitutionV,
)
    requires
        instance(TermV::Variable(variable), subject, last),
        well_sorted(last),
        agrees(rest.substitution, last),
    ensures
        ({
            let step = variable_step(context.mode, context.sorts@, rest, variable, subject);
            step is Ok && good_step(
                context.mode,
                rest,
                step->Ok_0,
                TermV::Variable(variable),
                last,
            )
        }),
{
    let pattern = TermV::Variable(variable);
    assert(assoc(last, variable) == Some(subject));
    lemma_value(last, variable);
    let next = variable_step(context.mode, context.sorts@, rest, variable, subject)->Ok_0;
    if assoc(rest.substitution, variable) is Some {
        lemma_assoc_entry(rest.substitution, variable, 0);
        let i: int = choose|i: int|
            0 <= i < rest.substitution.len() && #[trigger] rest.substitution[i] == (
                variable,
                assoc(rest.substitution, variable)->0,
            );
        assert(rest.substitution[i].1 == subject);
    } else {
        lemma_concrete_stays(subject, rest.substitution);
        lemma_no_variables(variable, subject);
        let single = seq![(variable, subject)];
        let values = composed_values(single, rest.substitution);
        assert forall|i: int| 0 <= i < rest.substitution.len() implies values[i]
            == #[trigger] rest.substitution[i] by {
            lemma_concrete_stays(rest.substitution[i].1, single);
        }
        assert(values =~= rest.substitution);
        lemma_bound_entries(rest.substitution, variable, subject, 0, next.substitution);
        assert forall|i: int| 0 <= i < next.substitution.len() implies assoc(
            last,
            (#[trigger] next.substitution[i]).0,
        ) == Some(next.substitution[i].1) && concrete(next.substitution[i].1) && normal(
            next.substitution[i].1,
        ) by {
            let entry = next.substitution[i];
            if entry != (variable, subject) {
                let j: int = choose|j: int|
                    0 <= j < rest.substitution.len() && rest.substitution[j] == entry;
                assert(rest.substitution[j] == entry);
            }
        }
    }
    lemma_nothing_added(rest, next, last);
}

/// The arguments of an instance are instances of the arguments.
proof fn lemma_arguments(pattern: TermV, subject: TermV, last: SubstitutionV)
    requires
        instance(pattern, subject, last),
        pattern is Application,
    ensures
        subject is Application,
        subject->Application_symbol == pattern->Application_symbol,
        subject->Application_sort_arguments == pattern->Application_sort_arguments,
        subject->Application_arguments.len() == pattern->Application_arguments.len(),
        all_instances(
            argument_pairs(pattern->Application_arguments, subject->Application_arguments),
            last,
        ),
        total(pattern->Application_arguments, 0) < size(pattern),
{
    reveal(children);
    reveal(with_children);
    let arguments = pattern->Application_arguments;
    let pairs = argument_pairs(arguments, subject->Application_arguments);
    assert(subject->Application_arguments == substituted_children(pattern, last));
    assert forall|i: int| 0 <= i < pairs.len() implies instance(
        (#[trigger] pairs[i]).0,
        pairs[i].1,
        last,
    ) by {
        assert(children(pattern)[i] == arguments[i]);
        assert(children(subject)[i] == subject->Application_arguments[i]);
        assert(substituted_children(pattern, last)[i] == substituted_child(pattern, i, last));
        lemma_simple_child(pattern, 0, i);
        lemma_normal_child(pattern, 0, i);
        lemma_concrete_child(subject, 0, i);
        lemma_normal_child(subject, 0, i);
    }
    lemma_size_children(pattern, 0);
}

/// The pair below two injections.
proof fn lemma_injection(pattern: TermV, subject: TermV, last: SubstitutionV)
    requires
        instance(pattern, subject, last),
        pattern is Injection,
    ensures
        subject is Injection,
        subject->Injection_source == pattern->Injection_source,
        subject->Injection_target == pattern->Injection_target,
        instance(*pattern->Injection_term, *subject->Injection_term, last),
        size(*pattern->Injection_term) < size(pattern),
{
    reveal(children);
    reveal(with_children);
    assert(substituted_children(pattern, last)[0] == substituted_child(pattern, 0, last));
    lemma_simple_child(pattern, 0, 0);
    lemma_normal_child(pattern, 0, 0);
    lemma_concrete_child(subject, 0, 0);
    lemma_normal_child(subject, 0, 0);
    lemma_size_children(pattern, 0);
    assert(size_from(pattern, 0) == size(children(pattern)[0]) + size_from(pattern, 1));
}

proof fn lemma_added(
    rest: ProgressV,
    next: ProgressV,
    pairs: Seq<(TermV, TermV)>,
)
    requires
        next.queue == rest.queue + pairs,
    ensures
        rest.queue.is_prefix_of(next.queue),
        next.queue.skip(rest.queue.len() as int) == pairs,
{
    assert(next.queue.skip(rest.queue.len() as int) =~= pairs);
}

// ---------------------------------------------------------------------------------------------
// Lists
// ---------------------------------------------------------------------------------------------
/// The list of `items`.
pub open spec fn list_of(definition: CollectionDefinitionV, items: Seq<TermV>) -> TermV {
    TermV::KList { definition, heads: items, rest: None, tails: Seq::empty() }
}

proof fn lemma_list_of(definition: CollectionDefinitionV, items: Seq<TermV>)
    requires
        forall|i: int|
            0 <= i < items.len() ==> concrete(#[trigger] items[i]) && normal(items[i]),
    ensures
        open_list(definition, items, None) == list_of(definition, items),
        concrete(list_of(definition, items)),
        normal(list_of(definition, items)),
{
    let list = list_of(definition, items);
    let none = Seq::<TermV>::empty();
    lemma_list_children(list);
    assert(children(list) =~= items);
    lemma_concrete_children(list, 0);
    lemma_list_normal(definition, items, None, none);
    reveal(list_term);
    assert(items + none =~= items);
}

/// The parts of an instance of a list pattern.
proof fn lemma_list_instance(pattern: TermV, subject: TermV, last: SubstitutionV) -> (middle: Seq<
    TermV,
>)
    requires
        instance(pattern, subject, last),
        well_sorted(last),
        pattern is KList,
    ensures
        subject is KList,
        subject->KList_definition == pattern->KList_definition,
        subject->KList_rest is None,
        subject->KList_tails.len() == 0,
        subject->KList_heads == all_replaced(pattern->KList_heads, last) + middle + all_replaced(
            pattern->KList_tails,
            last,
        ),
        pattern->KList_rest is None ==> middle.len() == 0 && pattern->KList_tails.len() == 0,
        pattern->KList_rest is Some ==> substituted(*pattern->KList_rest->0, last) == list_of(
            pattern->KList_definition,
            middle,
        ),
        forall|i: int|
            0 <= i < subject->KList_heads.len() ==> concrete(#[trigger] subject->KList_heads[i])
                && normal(subject->KList_heads[i]),
        forall|i: int|
            0 <= i < pattern->KList_heads.len() ==> simple(#[trigger] pattern->KList_heads[i])
                && normal(pattern->KList_heads[i]),
        forall|i: int|
            0 <= i < pattern->KList_tails.len() ==> simple(#[trigger] pattern->KList_tails[i])
                && normal(pattern->KList_tails[i]),
        pattern->KList_rest is Some ==> simple(*pattern->KList_rest->0) && normal(
            *pattern->KList_rest->0,
        ),
        total(
            pattern->KList_heads + rest_seq(pattern->KList_rest) + pattern->KList_tails,
            0,
        ) < size(pattern),
{
    let definition = pattern->KList_definition;
    let heads = pattern->KList_heads;
    let tails = pattern->KList_tails;
    let first = all_replaced(heads, last);
    let end = all_replaced(tails, last);
    let none = Seq::<TermV>::empty();
    lemma_list_replaced(pattern, last);
    lemma_list_rest(pattern);
    lemma_list_children(pattern);
    lemma_size_children(pattern, 0);
    let all = children(pattern);
    assert forall|i: int| 0 <= i < all.len() implies simple(#[trigger] all[i]) && normal(
        all[i],
    ) by {
        lemma_simple_child(pattern, 0, i);
        lemma_normal_child(pattern, 0, i);
    }
    assert forall|i: int| 0 <= i < heads.len() implies simple(#[trigger] heads[i]) && normal(
        heads[i],
    ) by {
        assert(all[i] == heads[i]);
    }
    assert forall|i: int| 0 <= i < tails.len() implies simple(#[trigger] tails[i]) && normal(
        tails[i],
    ) by {
        assert(all[heads.len() + rest_seq(pattern->KList_rest).len() + i] == tails[i]);
    }
    let middle = if let Some(rest) = pattern->KList_rest {
        assert(all[heads.len() as int] == *rest);
        let variable = rest->Variable_0;
        let value = substituted(*rest, last);
        if assoc(last, variable) is Some {
            lemma_value(last, variable);
        }
        reveal(list_term);
        assert(first.len() == heads.len());
        assert(end.len() == tails.len());
        if value is KList && value->KList_definition == definition && value->KList_rest is None {
            if assoc(last, variable) is Some {
                lemma_list_rest(value);
            }
            assert(value->KList_tails =~= none);
            assert(none + end =~= end);
            assert((first + value->KList_heads) + (none + end) =~= first + value->KList_heads
                + end);
            value->KList_heads
        } else {
            assert(subject is KList ==> subject->KList_rest is Some);
            none
        }
    } else {
        reveal(list_term);
        assert(end =~= none);
        assert(first + end =~= first + none + end);
        none
    };
    lemma_list_rest(subject);
    lemma_list_children(subject);
    let others = subject->KList_heads;
    assert(children(subject) =~= others);
    assert forall|i: int| 0 <= i < others.len() implies concrete(#[trigger] others[i]) && normal(
        others[i],
    ) by {
        assert(children(subject)[i] == others[i]);
        lemma_concrete_child(subject, 0, i);
        lemma_normal_child(subject, 0, i);
    }
    middle
}

/// The step that matches a list pattern with one of its instances.
#[verifier::spinoff_prover]
proof fn lemma_list<'a, K: Kernel>(
    context: Context<'a, K>,
    rest: ProgressV,
    pattern: TermV,
    subject: TermV,
    last: SubstitutionV,
)
    requires
        instance(pattern, subject, last),
        well_sorted(last),
        pattern is KList,
        agrees(rest.substitution, last),
    ensures
        ({
            let step = lists_step(
                context.mode,
                rest,
                pattern->KList_definition,
                pattern->KList_heads,
                list_rest(pattern),
                subject->KList_heads,
                list_rest(subject),
            );
            &&& subject is KList
            &&& subject->KList_definition == pattern->KList_definition
            &&& step is Ok
            &&& good_step(context.mode, rest, step->Ok_0, pattern, last)
        }),
{
    let definition = pattern->KList_definition;
    let heads = pattern->KList_heads;
    let tails = pattern->KList_tails;
    let others = subject->KList_heads;
    let none = Seq::<TermV>::empty();
    let middle = lemma_list_instance(pattern, subject, last);
    let first = all_replaced(heads, last);
    let end = all_replaced(tails, last);
    assert(others.len() == heads.len() + middle.len() + tails.len());
    let behind = others.skip(heads.len() as int);
    let remainder = prefix_remainder(heads, others);
    assert(behind =~= middle + end);
    if behind.len() > 0 {
        assert(others.subrange(heads.len() as int, others.len() as int) =~= behind);
    }
    assert(remainder == if behind.len() > 0 {
        Some(PairRemainderV::Right(behind))
    } else {
        None
    });
    let front = prefix_pairs(heads, others);
    let step = list_rest_step(
        context.mode,
        rest,
        definition,
        list_rest(pattern),
        list_rest(subject),
        remainder,
    );
    assert forall|i: int| 0 <= i < middle.len() implies concrete(#[trigger] middle[i]) && normal(
        middle[i],
    ) by {
        assert(others[heads.len() + i] == middle[i]);
    }
    lemma_list_of(definition, middle);
    lemma_list_of(definition, none);
    if pattern->KList_rest is Some {
        let frame = *pattern->KList_rest->0;
        assert(behind.subrange(0, behind.len() - tails.len()) =~= middle);
        if middle.len() == 0 {
            assert(middle =~= none);
        }
        let found = list_of(definition, middle);
        let back = suffix_pairs(tails, behind);
        let pairs = step->Ok_0.1;
        assert(step is Ok);
        assert(step->Ok_0.0 == rest);
        assert(pairs =~= seq![(frame, found)] + back);
        let next = enqueued_all(rest, front + pairs);
        lemma_added(rest, next, front + pairs);
        let all = front + pairs;
        assert forall|i: int| 0 <= i < all.len() implies instance(
            (#[trigger] all[i]).0,
            all[i].1,
            last,
        ) by {
            if i < heads.len() {
                assert(all[i] == (heads[i], others[i]));
                assert(others[i] == first[i]);
            } else if i == heads.len() {
                assert(all[i] == (frame, found));
            } else {
                let j = i - heads.len() - 1;
                assert(all[i] == back[j]);
                assert(back[j] == (tails[j], behind[middle.len() + j]));
                assert(behind[middle.len() + j] == end[j]);
                assert(others[heads.len() + middle.len() + j] == end[j]);
            }
        }
        assert(patterns_of(all) =~= heads + rest_seq(pattern->KList_rest) + tails);
    } else {
        assert(behind =~= none);
        assert(step->Ok_0 == (rest, Seq::<(TermV, TermV)>::empty()));
        let all = front + Seq::<(TermV, TermV)>::empty();
        let next = enqueued_all(rest, all);
        lemma_added(rest, next, all);
        assert forall|i: int| 0 <= i < all.len() implies instance(
            (#[trigger] all[i]).0,
            all[i].1,
            last,
        ) by {
            assert(all[i] == (heads[i], others[i]));
            assert(others[i] == first[i]);
        }
        assert(patterns_of(all) =~= heads + rest_seq(pattern->KList_rest) + tails);
    }
}

// ---------------------------------------------------------------------------------------------
// Matches
// ---------------------------------------------------------------------------------------------
proof fn lemma_no_overloads<'a, K: Kernel>(
    context: Context<'a, K>,
    pattern: TermV,
    subject: TermV,
    last: SubstitutionV,
)
    requires
        instance(pattern, subject, last),
    ensures
        resolved_overloads(context, pattern, subject) is None,
{
    if pattern is Application {
        lemma_arguments(pattern, subject, last);
    } else if pattern is Injection {
        lemma_injection(pattern, subject, last);
        if *pattern->Injection_term is Application {
            lemma_arguments(*pattern->Injection_term, *subject->Injection_term, last);
        }
    }
}

#[verifier::spinoff_prover]
proof fn lemma_step<'a, K: Kernel>(
    context: Context<'a, K>,
    rest: ProgressV,
    pattern: TermV,
    subject: TermV,
    last: SubstitutionV,
)
    requires
        instance(pattern, subject, last),
        well_sorted(last),
        agrees(rest.substitution, last),
    ensures
        ({
            let step = pair_step(context, rest, pattern, subject);
            step is Ok && good_step(context.mode, rest, step->Ok_0, pattern, last)
        }),
{
    reveal(pair_step);
    lemma_no_overloads(context, pattern, subject, last);
    let step = pair_step(context, rest, pattern, subject);
    if context.mode is Implies && pattern == subject {
        lemma_nothing_added(rest, rest, last);
    } else {
        match pattern {
            TermV::Variable(variable) => {
                lemma_variable(context, rest, variable, subject, last);
            },
            TermV::DomainValue { .. } => {
                reveal(with_children);
                assert(subject == pattern);
                lemma_nothing_added(rest, rest, last);
            },
            TermV::Injection { .. } => {
                lemma_injection(pattern, subject, last);
                let inner = *pattern->Injection_term;
                let pair = (inner, *subject->Injection_term);
                let next = enqueued(rest, pair.0, pair.1);
                assert(next.queue =~= rest.queue + seq![pair]);
                lemma_added(rest, next, seq![pair]);
                assert(seq![pair][0] == pair);
                assert(patterns_of(seq![pair]) =~= seq![inner]);
                assert(total(seq![inner], 0) == size(inner) + total(seq![inner], 1));
            },
            TermV::Application { .. } => {
                lemma_arguments(pattern, subject, last);
                let pairs = argument_pairs(
                    pattern->Application_arguments,
                    subject->Application_arguments,
                );
                assert(patterns_of(pairs) =~= pattern->Application_arguments);
                let next = step->Ok_0;
                if next.queue == rest.queue {
                    lemma_nothing_added(rest, next, last);
                } else {
                    lemma_added(rest, next, pairs);
                }
            },
            TermV::KList { .. } => {
                lemma_list(context, rest, pattern, subject, last);
            },
            _ => {},
        }
    }
}

proof fn lemma_matched<'a, K: Kernel>(
    context: Context<'a, K>,
    progress: ProgressV,
    fuel: nat,
    last: SubstitutionV,
)
    requires
        well_sorted(last),
        agrees(progress.substitution, last),
        all_instances(progress.queue, last),
        progress.map_queue.len() == 0,
    ensures
        matched(context, progress, fuel) is Ok,
        agrees(matched(context, progress, fuel)->Ok_0.substitution, last),
        context.mode is Rewrite && total(patterns_of(progress.queue), 0) <= fuel ==> matched(
            context,
            progress,
            fuel,
        )->Ok_0.indeterminate == progress.indeterminate,
    decreases fuel,
{
    let patterns = patterns_of(progress.queue);
    if progress.queue.len() > 0 {
        assert(size(patterns[0]) > 0);
        assert(total(patterns, 0) > 0);
    }
    if fuel == 0 {
        if total(patterns, 0) == 0 {
            assert(progress.indeterminate + progress.queue + progress.map_queue
                =~= progress.indeterminate);
        }
    } else if progress.queue.len() > 0 {
        let (pattern, subject) = progress.queue[0];
        let rest = ProgressV { queue: progress.queue.remove(0), ..progress };
        lemma_step(context, rest, pattern, subject, last);
        let next = pair_step(context, rest, pattern, subject)->Ok_0;
        let added = next.queue.skip(rest.queue.len() as int);
        assert(next.queue =~= rest.queue + added);
        assert forall|i: int| 0 <= i < next.queue.len() implies instance(
            (#[trigger] next.queue[i]).0,
            next.queue[i].1,
            last,
        ) by {
            if i < rest.queue.len() {
                assert(next.queue[i] == progress.queue[i + 1]);
            } else {
                assert(next.queue[i] == added[i - rest.queue.len()]);
            }
        }
        assert(patterns_of(next.queue) =~= patterns_of(rest.queue) + patterns_of(added));
        lemma_total_joined(patterns_of(rest.queue), patterns_of(added), 0);
        assert(patterns =~= seq![pattern] + patterns_of(rest.queue));
        lemma_total_joined(seq![pattern], patterns_of(rest.queue), 0);
        assert(total(seq![pattern], 0) == size(pattern) + total(seq![pattern], 1));
        lemma_matched(context, next, (fuel - 1) as nat, last);
    }
}

/// A simple pattern does not fail to match any of its instances: where some substitution of its
/// variables by terms of their sorts makes it a concrete term, matching it with that term does not
/// fail, and what is bound is bound as in that substitution. Where rules are matched, it succeeds.
/// (The pattern has no more symbols than steps can be counted.) So the frame of a list takes what
/// is between the items before and behind it, the empty list too.
pub proof fn law_instances_match<'a, K: Kernel>(
    context: Context<'a, K>,
    pattern: TermV,
    subject: TermV,
    last: SubstitutionV,
)
    requires
        simple(pattern),
        normal(pattern),
        concrete(subject),
        normal(subject),
        well_sorted(last),
        substituted(pattern, last) == subject,
    ensures
        match terms_matched(context, pattern, subject) {
            MatchResultV::Success(found) => agrees(found, last),
            MatchResultV::Indeterminate { substitution, .. } => agrees(substitution, last),
            MatchResultV::Failed(_) => false,
        },
        context.mode is Rewrite && size(pattern) <= MATCH_STEPS ==> terms_matched(
            context,
            pattern,
            subject,
        ) is Success,
{
    let shared = intersection(variables_of(pattern), variables_of(subject));
    if shared.len() > 0 {
        let v = shared[0];
        assert(shared.contains(v));
        law_intersection(variables_of(pattern), variables_of(subject), v);
        lemma_variables_into(subject, Seq::empty(), v);
        lemma_no_variables(v, subject);
        assert(false);
    }
    if pattern != subject {
        let pairs = seq![(pattern, subject)];
        let start = ProgressV {
            substitution: Seq::empty(),
            queue: pairs,
            map_queue: Seq::empty(),
            indeterminate: Seq::empty(),
        };
        assert(pairs[0] == (pattern, subject));
        assert(all_instances(pairs, last));
        assert(patterns_of(pairs) =~= seq![pattern]);
        assert(total(seq![pattern], 0) == size(pattern) + total(seq![pattern], 1));
        lemma_matched(context, start, MATCH_STEPS as nat, last);
    }
}

} // verus!
