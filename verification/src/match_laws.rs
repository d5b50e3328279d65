//! What a match says of the terms: a pattern becomes its subject under the match.

use vstd::prelude::*;
use crate::alike::{
    all_alike, alike, lemma_alike_application, lemma_alike_conjunction, lemma_alike_equal,
    lemma_alike_injection, lemma_alike_raised, injection_of, overloads, raised, without_injection,
};
use crate::assoc::{assoc, assoc_bound_from, assoc_from, law_bound};
use crate::construct::{lemma_variables_into, occurs, occurs_from, variables_of};
use crate::definition::{symbol_from, BackendDefinition};
use crate::kernel::Kernel;
use crate::match_collection_laws::lemma_lists_step;
use crate::match_unordered_laws::{lemma_maps_step, lemma_sets_step};
use crate::matcher::{
    applications_step, argument_pairs, decomposable, heads_step, matched, pair_step, terms_matched,
    MATCH_STEPS,
};
use crate::matching::{
    bound_step, deferred, enqueued, enqueued_all, injected, injections_step, occurs_rigidly,
    occurs_rigidly_from, variable_step, Context, FailReasonV, MatchMode, ProgressV,
};
use crate::model::{deep, intersection, law_intersection};
use crate::ops::{children, key_precedes, lemma_child_smaller, sort_of, Keyed};
use crate::overload::{
    common_sort_arguments, common_symbol, lifted, lifted_arguments, overload_view,
    resolved_overloads,
};
use crate::rebuild::with_children;
use crate::sorts::{
    common_overloads, common_upto, least_common_overload, minimal_upto, overloading, subsort,
    OverloadGraphV, SortErrorV, SortGraphV,
};
use crate::substitution::{
    composed_values, substituted, substituted_child, substituted_children, SubstitutionV,
};
use crate::term::{SortV, SymbolV, TermV, Variable, VariableV};

verus! {

// ---------------------------------------------------------------------------------------------
// Terms
// ---------------------------------------------------------------------------------------------
/// Whether a term has no collections in it.
pub open spec fn plain(term: TermV) -> bool
    decreases term, 1int, 0int,
{
    !(term is KMap) && !(term is KList) && !(term is KSet) && plain_from(term, 0)
}

/// Whether the children from `from` on have no collections in them.
pub open spec fn plain_from(term: TermV, from: int) -> bool
    decreases term, 0int, children(term).len() - from,
{
    if 0 <= from < children(term).len() {
        proof {
            lemma_child_smaller(term, from);
        }
        plain(children(term)[from]) && plain_from(term, from + 1)
    } else {
        true
    }
}

/// Whether every collection in a term is in normal form.
pub open spec fn normal(term: TermV) -> bool
    decreases term, 1int, 0int,
{
    with_children(term, children(term)) == term && normal_from(term, 0)
}

/// Whether every collection in the children from `from` on is in normal form.
pub open spec fn normal_from(term: TermV, from: int) -> bool
    decreases term, 0int, children(term).len() - from,
{
    if 0 <= from < children(term).len() {
        proof {
            lemma_child_smaller(term, from);
        }
        normal(children(term)[from]) && normal_from(term, from + 1)
    } else {
        true
    }
}

/// Whether a term has no maps and sets in it.
pub open spec fn ordered(term: TermV) -> bool
    decreases term, 1int, 0int,
{
    !(term is KMap) && !(term is KSet) && ordered_from(term, 0)
}

/// Whether the children from `from` on have no maps and sets in them.
pub open spec fn ordered_from(term: TermV, from: int) -> bool
    decreases term, 0int, children(term).len() - from,
{
    if 0 <= from < children(term).len() {
        proof {
            lemma_child_smaller(term, from);
        }
        ordered(children(term)[from]) && ordered_from(term, from + 1)
    } else {
        true
    }
}

/// A child of a term without collections has none.
pub proof fn lemma_plain_child(term: TermV, from: int, i: int)
    requires
        plain_from(term, from),
        0 <= from <= i < children(term).len(),
    ensures
        plain(children(term)[i]),
    decreases i - from,
{
    if from < i {
        lemma_plain_child(term, from + 1, i);
    }
}

pub proof fn lemma_normal_child(term: TermV, from: int, i: int)
    requires
        normal_from(term, from),
        0 <= from <= i < children(term).len(),
    ensures
        normal(children(term)[i]),
    decreases i - from,
{
    if from < i {
        lemma_normal_child(term, from + 1, i);
    }
}

pub proof fn lemma_occurs_child(variable: VariableV, term: TermV, from: int, i: int)
    requires
        0 <= from <= i < children(term).len(),
        occurs(variable, children(term)[i]),
    ensures
        occurs_from(variable, term, from),
    decreases i - from,
{
    if from < i {
        lemma_occurs_child(variable, term, from + 1, i);
    }
}

proof fn lemma_ordered_child(term: TermV, from: int, i: int)
    requires
        ordered_from(term, from),
        0 <= from <= i < children(term).len(),
    ensures
        ordered(children(term)[i]),
    decreases i - from,
{
    if from < i {
        lemma_ordered_child(term, from + 1, i);
    }
}

// ---------------------------------------------------------------------------------------------
// Sides of a match
// ---------------------------------------------------------------------------------------------
/// The pattern of a match, whether its subject has no variables, and the overloads that are known.
pub struct Whole {
    pub pattern: TermV,
    pub closed: bool,
    pub overloads: OverloadGraphV,
}

/// Whether `term` can stand on the side of the pattern.
///
/// In a pattern with maps and sets, a pair may also hold what variables were bound to.
pub open spec fn part(term: TermV, whole: Whole) -> bool {
    &&& normal(term)
    &&& ordered(whole.pattern) ==> ordered(term)
    &&& ordered(whole.pattern) || whole.closed ==> forall|v: VariableV|
        occurs(v, term) ==> #[trigger] occurs(v, whole.pattern)
}

/// Whether a variable cannot stand on the side of the subject.
pub open spec fn barred(variable: VariableV, whole: Whole) -> bool {
    whole.closed || occurs(variable, whole.pattern)
}

/// Whether a substitution binds variables of the pattern only.
pub open spec fn binds_within(substitution: SubstitutionV, pattern: TermV) -> bool {
    forall|i: int| 0 <= i < substitution.len() ==> occurs((#[trigger] substitution[i]).0, pattern)
}

/// Whether `term` can stand on the side of the subject.
pub open spec fn fits(term: TermV, whole: Whole) -> bool {
    normal(term) && forall|v: VariableV| #[trigger] barred(v, whole) ==> !occurs(v, term)
}

pub proof fn lemma_part_child(term: TermV, whole: Whole, i: int)
    requires
        part(term, whole),
        0 <= i < children(term).len(),
    ensures
        part(children(term)[i], whole),
{
    reveal(children);
    lemma_normal_child(term, 0, i);
    if ordered(whole.pattern) {
        lemma_ordered_child(term, 0, i);
    }
    if ordered(whole.pattern) || whole.closed {
        assert forall|v: VariableV| occurs(v, children(term)[i]) implies #[trigger] occurs(
            v,
            whole.pattern,
        ) by {
            lemma_occurs_child(v, term, 0, i);
            assert(occurs(v, term));
        }
    }
}

pub proof fn lemma_fits_child(term: TermV, whole: Whole, i: int)
    requires
        fits(term, whole),
        0 <= i < children(term).len(),
    ensures
        fits(children(term)[i], whole),
{
    reveal(children);
    lemma_normal_child(term, 0, i);
    assert forall|v: VariableV| #[trigger] barred(v, whole) implies !occurs(
        v,
        children(term)[i],
    ) by {
        if occurs(v, children(term)[i]) {
            lemma_occurs_child(v, term, 0, i);
            assert(occurs(v, term));
        }
    }
}

/// Whether a substitution binds variables of the pattern to terms of the subject.
pub open spec fn steady(substitution: SubstitutionV, whole: Whole) -> bool {
    forall|i: int|
        0 <= i < substitution.len() ==> occurs((#[trigger] substitution[i]).0, whole.pattern) && fits(
            substitution[i].1,
            whole,
        )
}

/// Whether `more` keeps the bindings of `fewer`.
pub open spec fn extends(more: SubstitutionV, fewer: SubstitutionV) -> bool {
    forall|v: VariableV|
        (#[trigger] assoc(fewer, v)) is Some ==> assoc(more, v) == assoc(fewer, v)
}

pub proof fn lemma_assoc_entry(substitution: SubstitutionV, variable: VariableV, from: int)
    requires
        0 <= from,
        assoc_from(substitution, variable, from) is Some,
    ensures
        exists|i: int|
            0 <= i < substitution.len() && #[trigger] substitution[i] == (
                variable,
                assoc_from(substitution, variable, from)->0,
            ),
    decreases substitution.len() - from,
{
    if from < substitution.len() && substitution[from].0 != variable {
        lemma_assoc_entry(substitution, variable, from + 1);
    } else {
        assert(substitution[from] == (variable, assoc_from(substitution, variable, from)->0));
    }
}

/// A substitution leaves the terms of the subject as they are.
pub proof fn lemma_untouched(term: TermV, substitution: SubstitutionV, whole: Whole)
    requires
        fits(term, whole),
        steady(substitution, whole),
    ensures
        substituted(term, substitution) == term,
    decreases term,
{
    if term is Variable {
        let variable = term->Variable_0;
        assert(occurs(variable, term));
        if assoc(substitution, variable) is Some {
            lemma_assoc_entry(substitution, variable, 0);
            assert(barred(variable, whole));
            assert(false);
        }
    } else {
        assert forall|i: int| 0 <= i < children(term).len() implies substituted_child(
            term,
            i,
            substitution,
        ) == children(term)[i] by {
            lemma_child_smaller(term, i);
            lemma_fits_child(term, whole, i);
            lemma_untouched(children(term)[i], substitution, whole);
        }
        assert(substituted_children(term, substitution) =~= children(term));
    }
}

proof fn lemma_bound_entries(
    substitution: SubstitutionV,
    variable: VariableV,
    term: TermV,
    from: int,
    after: SubstitutionV,
)
    requires
        0 <= from,
        after == assoc_bound_from::<Variable, TermV>(substitution, variable, term, from),
    ensures
        forall|i: int|
            0 <= i < after.len() ==> (#[trigger] after[i]) == (variable, term)
                || substitution.contains(after[i]),
    decreases substitution.len() - from,
{
    let before = from < substitution.len() && substitution[from].0 != variable && !key_precedes(
        <Variable as Keyed>::key(variable),
        <Variable as Keyed>::key(substitution[from].0),
    );
    if before {
        lemma_bound_entries(substitution, variable, term, from + 1, after);
    } else {
        assert forall|i: int| 0 <= i < after.len() implies (#[trigger] after[i]) == (variable, term)
            || substitution.contains(after[i]) by {
            if from >= substitution.len() {
                if i < substitution.len() {
                    assert(after[i] == substitution[i]);
                }
            } else if substitution[from].0 == variable {
                if i != from {
                    assert(after[i] == substitution[i]);
                }
            } else if i < from {
                assert(after[i] == substitution[i]);
            } else if i > from {
                assert(after[i] == substitution[i - 1]);
            }
        }
    }
}

// ---------------------------------------------------------------------------------------------
// Steps
// ---------------------------------------------------------------------------------------------
/// What one step promises of the pair that it took up, where nothing is left open: the pair is
/// alike under a substitution that keeps the bindings if the pairs that the step added are.
pub open spec fn sound_step(
    rest: ProgressV,
    next: ProgressV,
    pattern: TermV,
    subject: TermV,
    whole: Whole,
    last: SubstitutionV,
) -> bool {
    next.indeterminate.len() == rest.indeterminate.len() && extends(last, next.substitution)
        && pairs_hold(whole.overloads, next.queue, rest.queue.len() as int, last) && pairs_hold(
        whole.overloads,
        next.map_queue,
        rest.map_queue.len() as int,
        last,
    ) ==> alike(whole.overloads, substituted(pattern, last), subject)
}

/// Whether the pairs from `from` on are alike under a substitution.
pub open spec fn pairs_hold(
    graph: OverloadGraphV,
    pairs: Seq<(TermV, TermV)>,
    from: int,
    substitution: SubstitutionV,
) -> bool {
    forall|i: int|
        from <= i < pairs.len() ==> alike(
            graph,
            substituted((#[trigger] pairs[i]).0, substitution),
            pairs[i].1,
        )
}

/// Whether the pairs from `from` on can stand where they stand.
pub open spec fn pairs_fit(pairs: Seq<(TermV, TermV)>, from: int, whole: Whole) -> bool {
    forall|i: int|
        from <= i < pairs.len() ==> part((#[trigger] pairs[i]).0, whole) && fits(pairs[i].1, whole)
}

/// Whether `more` are the pairs `fewer` and others behind them.
pub open spec fn pairs_kept(fewer: Seq<(TermV, TermV)>, more: Seq<(TermV, TermV)>) -> bool {
    more.len() >= fewer.len() && forall|i: int|
        0 <= i < fewer.len() ==> #[trigger] more[i] == fewer[i]
}

/// What one step keeps.
pub open spec fn kept_step(rest: ProgressV, next: ProgressV, whole: Whole) -> bool {
    &&& next.indeterminate.len() >= rest.indeterminate.len()
    &&& pairs_kept(rest.queue, next.queue)
    &&& pairs_kept(rest.map_queue, next.map_queue)
    &&& pairs_fit(next.queue, rest.queue.len() as int, whole)
    &&& pairs_fit(next.map_queue, rest.map_queue.len() as int, whole)
    &&& steady(next.substitution, whole)
    &&& extends(next.substitution, rest.substitution)
}

proof fn lemma_bound_step<'a, K: Kernel>(
    context: Context<'a, K>,
    rest: ProgressV,
    variable: VariableV,
    term: TermV,
    whole: Whole,
)
    requires
        steady(rest.substitution, whole),
        fits(term, whole),
        bound_step(context.mode, rest, variable, term) is Ok,
        occurs(variable, whole.pattern) || binds_within(
            bound_step(context.mode, rest, variable, term)->Ok_0.substitution,
            whole.pattern,
        ),
    ensures
        ({
            let next = bound_step(context.mode, rest, variable, term)->Ok_0;
            &&& kept_step(rest, next, whole)
            &&& next.queue == rest.queue
            &&& next.map_queue == rest.map_queue
            &&& next.indeterminate.len() == rest.indeterminate.len() ==> assoc(
                next.substitution,
                variable,
            ) == Some(term)
        }),
{
    let next = bound_step(context.mode, rest, variable, term)->Ok_0;
    if assoc(rest.substitution, variable) is None {
        lemma_untouched(term, rest.substitution, whole);
        if !occurs(variable, term) {
            let single = seq![(variable, term)];
            law_bound::<Variable, TermV>(
                composed_values(single, rest.substitution),
                variable,
                term,
                variable,
            );
            lemma_assoc_entry(next.substitution, variable, 0);
            assert(occurs(variable, whole.pattern));
            assert(steady(single, whole));
            assert forall|i: int| 0 <= i < rest.substitution.len() implies substituted(
                (#[trigger] rest.substitution[i]).1,
                single,
            ) == rest.substitution[i].1 by {
                lemma_untouched(rest.substitution[i].1, single, whole);
            }
            assert(composed_values(single, rest.substitution) =~= rest.substitution);
            lemma_bound_entries(rest.substitution, variable, term, 0, next.substitution);
            assert forall|v: VariableV| #[trigger] assoc(
                rest.substitution,
                v,
            ) is Some implies assoc(next.substitution, v) == assoc(rest.substitution, v) by {
                law_bound::<Variable, TermV>(rest.substitution, variable, term, v);
            }
            law_bound::<Variable, TermV>(rest.substitution, variable, term, variable);
            assert(steady(next.substitution, whole)) by {
                assert forall|i: int| 0 <= i < next.substitution.len() implies occurs(
                    (#[trigger] next.substitution[i]).0,
                    whole.pattern,
                ) && fits(next.substitution[i].1, whole) by {
                    let entry = next.substitution[i];
                    if entry != (variable, term) {
                        let j = choose|j: int|
                            0 <= j < rest.substitution.len() && rest.substitution[j] == entry;
                        assert(rest.substitution[j] == entry);
                    }
                }
            }
        }
    }
}

/// The overloads that a context knows.
pub open spec fn overloads_of<'a, K: Kernel>(context: Context<'a, K>) -> OverloadGraphV {
    match context.definition {
        Some(definition) => definition.overloads@,
        None => Seq::empty(),
    }
}

proof fn lemma_injection_of(term: TermV, other: TermV, whole: Whole, last: SubstitutionV)
    requires
        injection_of(term, other),
    ensures
        part(term, whole) ==> part(other, whole),
        fits(term, whole) ==> fits(other, whole),
        injection_of(substituted(term, last), substituted(other, last)),
{
    if other != term {
        lemma_injection_inner(other, last);
        reveal(children);
        reveal(with_children);
        assert(normal_from(other, 1));
        assert(ordered_from(other, 1));
        assert(normal_from(other, 0) == normal(term));
        assert(ordered_from(other, 0) == ordered(term));
        assert forall|v: VariableV| occurs(v, other) == #[trigger] occurs(v, term) by {
            assert(!occurs_from(v, other, 1));
            assert(occurs_from(v, other, 0) == occurs(v, term));
        }
    }
}

proof fn lemma_normal_arguments(term: TermV, from: int)
    requires
        term is Application,
        0 <= from <= children(term).len(),
        forall|i: int|
            0 <= i < term->Application_arguments.len() ==> normal(
                #[trigger] term->Application_arguments[i],
            ),
    ensures
        normal_from(term, from),
        (forall|i: int|
            0 <= i < term->Application_arguments.len() ==> ordered(
                #[trigger] term->Application_arguments[i],
            )) ==> ordered_from(term, from),
    decreases children(term).len() - from,
{
    reveal(children);
    if from < children(term).len() {
        assert(children(term)[from] == term->Application_arguments[from]);
        lemma_normal_arguments(term, from + 1);
    }
}

proof fn lemma_occurs_argument(variable: VariableV, term: TermV, from: int)
    requires
        term is Application,
        0 <= from,
        occurs_from(variable, term, from),
    ensures
        exists|i: int|
            0 <= i < term->Application_arguments.len() && occurs(
                variable,
                #[trigger] term->Application_arguments[i],
            ),
    decreases children(term).len() - from,
{
    reveal(children);
    if from < children(term).len() {
        assert(children(term)[from] == term->Application_arguments[from]);
        if !occurs(variable, children(term)[from]) {
            lemma_occurs_argument(variable, term, from + 1);
        }
    }
}

/// An application can stand where its arguments can.
proof fn lemma_application_stands(term: TermV, whole: Whole)
    requires
        term is Application,
    ensures
        (forall|i: int|
            0 <= i < term->Application_arguments.len() ==> part(
                #[trigger] term->Application_arguments[i],
                whole,
            )) ==> part(term, whole),
        (forall|i: int|
            0 <= i < term->Application_arguments.len() ==> fits(
                #[trigger] term->Application_arguments[i],
                whole,
            )) ==> fits(term, whole),
{
    let arguments = term->Application_arguments;
    let all_normal = forall|i: int| 0 <= i < arguments.len() ==> normal(#[trigger] arguments[i]);
    if all_normal {
        lemma_normal_arguments(term, 0);
        reveal(children);
        reveal(with_children);
        assert(with_children(term, children(term)) == term);
        assert(normal(term));
    }
    if forall|i: int| 0 <= i < arguments.len() ==> part(#[trigger] arguments[i], whole) {
        assert(all_normal);
        assert forall|v: VariableV|
            (ordered(whole.pattern) || whole.closed) && occurs(v, term) implies #[trigger] occurs(
            v,
            whole.pattern,
        ) by {
            lemma_occurs_argument(v, term, 0);
            let i: int = choose|i: int|
                0 <= i < arguments.len() && occurs(v, #[trigger] arguments[i]);
            assert(part(arguments[i], whole));
        }
    }
    if forall|i: int| 0 <= i < arguments.len() ==> fits(#[trigger] arguments[i], whole) {
        assert(all_normal);
        assert forall|v: VariableV| #[trigger] barred(v, whole) implies !occurs(v, term) by {
            if occurs(v, term) {
                lemma_occurs_argument(v, term, 0);
                let i: int = choose|i: int|
                    0 <= i < arguments.len() && occurs(v, #[trigger] arguments[i]);
                assert(fits(arguments[i], whole));
            }
        }
    }
}

/// A term with a symbol that overloads its own can stand where the term can.
proof fn lemma_raised(term: TermV, other: TermV, whole: Whole, last: SubstitutionV)
    requires
        raised(whole.overloads, term, other),
    ensures
        part(term, whole) ==> part(other, whole),
        fits(term, whole) ==> fits(other, whole),
        raised(whole.overloads, substituted(term, last), substituted(other, last)),
{
    let lower = without_injection(term);
    let upper = without_injection(other);
    assert(injection_of(lower, term));
    assert(injection_of(upper, other));
    let arguments = lower->Application_arguments;
    let others = upper->Application_arguments;
    assert forall|i: int| 0 <= i < others.len() implies (part(lower, whole) ==> part(
        #[trigger] others[i],
        whole,
    )) && (fits(lower, whole) ==> fits(others[i], whole)) by {
        assert(injection_of(arguments[i], others[i]));
        lemma_injection_of(arguments[i], others[i], whole, last);
        assert(children(lower)[i] == arguments[i]) by {
            reveal(children);
        }
        assert(children(lower).len() == arguments.len()) by {
            reveal(children);
        }
        if part(lower, whole) {
            lemma_part_child(lower, whole, i);
        }
        if fits(lower, whole) {
            lemma_fits_child(lower, whole, i);
        }
    }
    lemma_application_stands(upper, whole);
    lemma_injection_of(upper, other, whole, last);
    if term is Injection {
        lemma_injection_inner(term, last);
        if part(term, whole) {
            lemma_part_child(term, whole, 0);
        }
        if fits(term, whole) {
            lemma_fits_child(term, whole, 0);
        }
    }
    if other is Injection {
        lemma_injection_inner(other, last);
    }
    let lower_last = substituted(lower, last);
    let upper_last = substituted(upper, last);
    reveal(children);
    reveal(with_children);
    assert(without_injection(substituted(term, last)) == lower_last);
    assert(without_injection(substituted(other, last)) == upper_last);
    assert forall|i: int| 0 <= i < arguments.len() implies injection_of(
        #[trigger] lower_last->Application_arguments[i],
        upper_last->Application_arguments[i],
    ) by {
        assert(injection_of(arguments[i], others[i]));
        lemma_injection_of(arguments[i], others[i], whole, last);
        assert(lower_last->Application_arguments[i] == substituted_child(lower, i, last));
        assert(upper_last->Application_arguments[i] == substituted_child(upper, i, last));
    }
}

proof fn lemma_lifted_arguments(
    sorts: SortGraphV,
    arguments: Seq<TermV>,
    common: SymbolV,
    sort_arguments: Seq<SortV>,
    from: int,
)
    requires
        0 <= from <= arguments.len(),
    ensures
        match lifted_arguments(sorts, arguments, common, sort_arguments, from) {
            Some(lifted) => lifted.len() == arguments.len() - from && forall|i: int|
                from <= i < arguments.len() ==> injection_of(
                    #[trigger] arguments[i],
                    lifted[i - from],
                ),
            None => true,
        },
    decreases arguments.len() - from,
{
    if from < arguments.len() {
        lemma_lifted_arguments(sorts, arguments, common, sort_arguments, from + 1);
        if let Some(lifted) = lifted_arguments(sorts, arguments, common, sort_arguments, from) {
            let rest = lifted_arguments(
                sorts,
                arguments,
                common,
                sort_arguments,
                from + 1,
            )->Some_0;
            assert forall|i: int| from <= i < arguments.len() implies injection_of(
                #[trigger] arguments[i],
                lifted[i - from],
            ) by {
                if i > from {
                    assert(lifted[i - from] == rest[i - (from + 1)]);
                }
            }
        }
    }
}

proof fn lemma_lifted(
    graph: OverloadGraphV,
    sorts: SortGraphV,
    term: TermV,
    common: SymbolV,
    sort_arguments: Seq<SortV>,
)
    requires
        overload_view(term) is Some,
        lifted(sorts, overload_view(term)->0, common, sort_arguments) is Some,
        (overload_view(term)->0.symbol.name == common.name && overload_view(
            term,
        )->0.sort_arguments == sort_arguments) || overloads(
            graph,
            common.name,
            overload_view(term)->0.symbol.name,
        ),
    ensures
        raised(graph, term, lifted(sorts, overload_view(term)->0, common, sort_arguments)->0),
{
    let view = overload_view(term)->0;
    lemma_lifted_arguments(sorts, view.arguments, common, sort_arguments, 0);
    let arguments = lifted_arguments(sorts, view.arguments, common, sort_arguments, 0)->0;
    assert forall|i: int| 0 <= i < view.arguments.len() implies injection_of(
        #[trigger] view.arguments[i],
        arguments[i],
    ) by {
        assert(arguments[i - 0] == arguments[i]);
    }
}

proof fn lemma_overloading(graph: OverloadGraphV, upper: Seq<char>, lower: Seq<char>, from: int)
    requires
        0 <= from,
        assoc_from(graph, upper, from) is Some,
        assoc_from(graph, upper, from)->0.contains(lower),
    ensures
        overloads(graph, upper, lower),
    decreases graph.len() - from,
{
    if from < graph.len() && graph[from].0 != upper {
        lemma_overloading(graph, upper, lower, from + 1);
    } else {
        assert(graph[from].0 == upper && graph[from].1.contains(lower));
    }
}

proof fn lemma_common_upto(
    graph: OverloadGraphV,
    left: Seq<char>,
    right: Seq<char>,
    count: int,
    name: Seq<char>,
)
    requires
        0 <= count <= graph.len(),
        common_upto(graph, left, right, count).contains(name),
    ensures
        overloads(graph, name, left),
        overloads(graph, name, right),
    decreases count,
{
    if count > 0 {
        let before = common_upto(graph, left, right, count - 1);
        let entry = graph[count - 1];
        if before.contains(name) {
            lemma_common_upto(graph, left, right, count - 1, name);
        } else {
            let found = common_upto(graph, left, right, count);
            let i: int = choose|i: int| 0 <= i < found.len() && found[i] == name;
            if i < before.len() {
                assert(before[i] == name);
            }
            assert(entry.0 == name && entry.1.contains(left) && entry.1.contains(right));
        }
    }
}

proof fn lemma_minimal_upto(graph: OverloadGraphV, names: Seq<Seq<char>>, count: int)
    requires
        0 <= count <= names.len(),
    ensures
        forall|i: int|
            0 <= i < minimal_upto(graph, names, count).len() ==> names.contains(
                #[trigger] minimal_upto(graph, names, count)[i],
            ),
    decreases count,
{
    if count > 0 {
        lemma_minimal_upto(graph, names, count - 1);
        let before = minimal_upto(graph, names, count - 1);
        let found = minimal_upto(graph, names, count);
        assert(names.contains(names[count - 1]));
        assert forall|i: int| 0 <= i < found.len() implies names.contains(#[trigger] found[i]) by {
            if i < before.len() {
                assert(found[i] == before[i]);
            }
        }
    }
}

proof fn lemma_common_symbol<K: Kernel>(
    definition: BackendDefinition<K>,
    left: Seq<char>,
    right: Seq<char>,
)
    ensures
        match common_symbol(definition, left, right) {
            Some(name) => (name == left || overloads(definition.overloads@, name, left)) && (name
                == right || overloads(definition.overloads@, name, right)),
            None => true,
        },
{
    let graph = definition.overloads@;
    if overloading(graph, left, right) {
        lemma_overloading(graph, left, right, 0);
    } else if overloading(graph, right, left) {
        lemma_overloading(graph, right, left, 0);
    } else {
        let common = common_overloads(graph, left, right);
        lemma_minimal_upto(graph, common, common.len() as int);
        if let Some(name) = least_common_overload(graph, left, right) {
            assert(common.contains(name));
            lemma_common_upto(graph, left, right, graph.len() as int, name);
        }
    }
}

proof fn lemma_symbol_name(symbols: Seq<SymbolV>, name: Seq<char>, from: int)
    ensures
        match symbol_from(symbols, name, from) {
            Some(symbol) => symbol.name == name,
            None => true,
        },
    decreases symbols.len() - from,
{
    if from < symbols.len() {
        lemma_symbol_name(symbols, name, from + 1);
    }
}

/// A pair of overloaded symbols is matched with a symbol that overloads both.
proof fn lemma_resolved_step<'a, K: Kernel>(
    context: Context<'a, K>,
    rest: ProgressV,
    pattern: TermV,
    subject: TermV,
    whole: Whole,
    last: SubstitutionV,
)
    requires
        whole.overloads == overloads_of(context),
        steady(rest.substitution, whole),
        part(pattern, whole),
        fits(subject, whole),
        resolved_overloads(context, pattern, subject) is Some,
    ensures
        ({
            let (left, right) = resolved_overloads(context, pattern, subject)->0;
            let next = enqueued(rest, left, right);
            kept_step(rest, next, whole) && sound_step(rest, next, pattern, subject, whole, last)
        }),
{
    let definition = context.definition->0;
    let (other_left, other_right) = resolved_overloads(context, pattern, subject)->0;
    let left = overload_view(pattern)->0;
    let right = overload_view(subject)->0;
    let name = common_symbol(*definition, left.symbol.name, right.symbol.name)->0;
    let common = definition.spec_symbol(name)->0;
    let sort_arguments = common_sort_arguments(left, right, name, common)->0;
    lemma_common_symbol(*definition, left.symbol.name, right.symbol.name);
    lemma_symbol_name(deep(definition.symbols@), name, 0);
    lemma_lifted(whole.overloads, context.sorts@, pattern, common, sort_arguments);
    lemma_lifted(whole.overloads, context.sorts@, subject, common, sort_arguments);
    lemma_raised(pattern, other_left, whole, last);
    lemma_raised(subject, other_right, whole, last);
    let next = enqueued(rest, other_left, other_right);
    let start = rest.queue.len() as int;
    assert(next.queue[start] == (other_left, other_right));
    if pairs_hold(whole.overloads, next.queue, start, last) {
        lemma_alike_raised(
            whole.overloads,
            substituted(pattern, last),
            subject,
            substituted(other_left, last),
            other_right,
        );
    }
}

proof fn lemma_applications_step<'a, K: Kernel>(
    context: Context<'a, K>,
    rest: ProgressV,
    pattern: TermV,
    subject: TermV,
    whole: Whole,
    last: SubstitutionV,
)
    requires
        pattern is Application,
        subject is Application,
        steady(rest.substitution, whole),
        part(pattern, whole),
        fits(subject, whole),
        applications_step(context.mode, rest, pattern, subject) is Ok,
    ensures
        ({
            let next = applications_step(context.mode, rest, pattern, subject)->Ok_0;
            kept_step(rest, next, whole) && sound_step(rest, next, pattern, subject, whole, last)
        }),
{
    reveal(children);
    reveal(with_children);
    let next = applications_step(context.mode, rest, pattern, subject)->Ok_0;
    let start = rest.queue.len() as int;
    if next.indeterminate.len() == rest.indeterminate.len() {
        let pairs = argument_pairs(
            pattern->Application_arguments,
            subject->Application_arguments,
        );
        assert(next == enqueued_all(rest, pairs));
        assert forall|i: int| start <= i < next.queue.len() implies part(
            (#[trigger] next.queue[i]).0,
            whole,
        ) && fits(next.queue[i].1, whole) by {
            assert(next.queue[i] == pairs[i - start]);
            lemma_part_child(pattern, whole, i - start);
            lemma_fits_child(subject, whole, i - start);
        }
        if extends(last, next.substitution) && (forall|i: int|
            start <= i < next.queue.len() ==> alike(
                whole.overloads,
                substituted((#[trigger] next.queue[i]).0, last),
                next.queue[i].1,
            )) {
            let after = substituted(pattern, last);
            assert(children(after) == substituted_children(pattern, last));
            assert forall|i: int| 0 <= i < children(after).len() implies alike(
                whole.overloads,
                #[trigger] children(after)[i],
                children(subject)[i],
            ) by {
                assert(next.queue[start + i] == pairs[i]);
                assert(children(after)[i] == substituted_child(pattern, i, last));
            }
            assert(all_alike(whole.overloads, after->Application_arguments, subject->Application_arguments)) by {
                assert forall|i: int| 0 <= i < children(after).len() implies alike(
                    whole.overloads,
                    #[trigger] after->Application_arguments[i],
                    subject->Application_arguments[i],
                ) by {
                    assert(alike(whole.overloads, children(after)[i], children(subject)[i]));
                }
            }
            lemma_alike_application(whole.overloads, after, subject);
        }
    }
}

proof fn lemma_injection_inner(term: TermV, last: SubstitutionV)
    requires
        term is Injection,
    ensures
        substituted(term, last) is Injection,
        *substituted(term, last)->Injection_term == substituted(*term->Injection_term, last),
        children(term).len() == 1,
        children(term)[0] == *term->Injection_term,
{
    reveal(children);
    reveal(with_children);
    assert(substituted_children(term, last)[0] == substituted_child(term, 0, last));
}

proof fn lemma_conjunction_inner(term: TermV, last: SubstitutionV)
    requires
        term is And,
    ensures
        substituted(term, last) is And,
        *substituted(term, last)->And_0 == substituted(*term->And_0, last),
        *substituted(term, last)->And_1 == substituted(*term->And_1, last),
        children(term).len() == 2,
        children(term)[0] == *term->And_0,
        children(term)[1] == *term->And_1,
{
    reveal(children);
    reveal(with_children);
    assert(substituted_children(term, last)[0] == substituted_child(term, 0, last));
    assert(substituted_children(term, last)[1] == substituted_child(term, 1, last));
}

proof fn lemma_injected(term: TermV, source: SortV, target: SortV, whole: Whole)
    requires
        fits(term, whole),
    ensures
        fits(injected(source, target, term), whole),
        alike(whole.overloads, injected(source, target, term), term),
{
    reveal(children);
    reveal(with_children);
    let result = injected(source, target, term);
    assert(normal_from(result, 1));
    assert(normal_from(result, 0));
    assert forall|v: VariableV| #[trigger] barred(v, whole) implies !occurs(v, result) by {
        assert(!occurs_from(v, result, 1));
        assert(occurs_from(v, result, 0) == occurs(v, term));
    }
    lemma_alike_equal(whole.overloads, term);
    lemma_alike_injection(whole.overloads, result, term);
}

proof fn lemma_variable_step<'a, K: Kernel>(
    context: Context<'a, K>,
    rest: ProgressV,
    variable: VariableV,
    subject: TermV,
    whole: Whole,
    last: SubstitutionV,
)
    requires
        steady(rest.substitution, whole),
        fits(subject, whole),
        variable_step(context.mode, context.sorts@, rest, variable, subject) is Ok,
        occurs(variable, whole.pattern) || binds_within(
            variable_step(context.mode, context.sorts@, rest, variable, subject)->Ok_0.substitution,
            whole.pattern,
        ),
    ensures
        ({
            let next = variable_step(context.mode, context.sorts@, rest, variable, subject)->Ok_0;
            kept_step(rest, next, whole) && sound_step(
                rest,
                next,
                TermV::Variable(variable),
                subject,
                whole,
                last,
            )
        }),
{
    let sort = sort_of(subject);
    if subsort(context.sorts@, sort, variable.sort) == Ok::<bool, SortErrorV>(true) {
        lemma_injected(subject, sort, variable.sort, whole);
        let term = if sort == variable.sort {
            subject
        } else {
            injected(sort, variable.sort, subject)
        };
        lemma_bound_step(context, rest, variable, term, whole);
        lemma_alike_equal(whole.overloads, subject);
        assert(alike(whole.overloads, term, subject));
    }
}

proof fn lemma_injections_step<'a, K: Kernel>(
    context: Context<'a, K>,
    rest: ProgressV,
    pattern: TermV,
    subject: TermV,
    whole: Whole,
    last: SubstitutionV,
)
    requires
        pattern is Injection,
        subject is Injection,
        steady(rest.substitution, whole),
        part(pattern, whole),
        fits(subject, whole),
        injections_step(context.mode, context.sorts@, rest, pattern, subject) is Ok,
        ordered(whole.pattern) || whole.closed || binds_within(
            injections_step(
                context.mode,
                context.sorts@,
                rest,
                pattern,
                subject,
            )->Ok_0.substitution,
            whole.pattern,
        ),
    ensures
        ({
            let next = injections_step(context.mode, context.sorts@, rest, pattern, subject)->Ok_0;
            kept_step(rest, next, whole) && sound_step(rest, next, pattern, subject, whole, last)
        }),
{
    let next = injections_step(context.mode, context.sorts@, rest, pattern, subject)->Ok_0;
    let inner = *pattern->Injection_term;
    let subject_inner = *subject->Injection_term;
    lemma_injection_inner(pattern, last);
    lemma_injection_inner(subject, last);
    lemma_part_child(pattern, whole, 0);
    lemma_fits_child(subject, whole, 0);
    if inner is Variable {
        assert(occurs(inner->Variable_0, inner));
        let term = injected(
            subject->Injection_source,
            pattern->Injection_source,
            subject_inner,
        );
        lemma_injected(
            subject_inner,
            subject->Injection_source,
            pattern->Injection_source,
            whole,
        );
        let bound = bound_step(context.mode, rest, inner->Variable_0, term);
        if bound == Ok::<ProgressV, FailReasonV>(next) {
            lemma_bound_step(context, rest, inner->Variable_0, term, whole);
            lemma_alike_equal(whole.overloads, subject_inner);
            lemma_alike_injection(whole.overloads, subject_inner, subject);
            lemma_alike_injection(whole.overloads, term, subject);
            assert(alike(whole.overloads, term, subject));
            lemma_alike_injection(whole.overloads, substituted(pattern, last), subject);
        }
    }
}

proof fn lemma_heads_step<'a, K: Kernel>(
    context: Context<'a, K>,
    rest: ProgressV,
    pattern: TermV,
    subject: TermV,
    whole: Whole,
    last: SubstitutionV,
)
    requires
        !(pattern is Variable),
        !(pattern is And),
        steady(rest.substitution, whole),
        steady(last, whole),
        part(pattern, whole),
        fits(subject, whole),
        heads_step(context, rest, pattern, subject) is Ok,
        ordered(whole.pattern) || whole.closed || binds_within(
            heads_step(context, rest, pattern, subject)->Ok_0.substitution,
            whole.pattern,
        ),
    ensures
        ({
            let next = heads_step(context, rest, pattern, subject)->Ok_0;
            kept_step(rest, next, whole) && sound_step(rest, next, pattern, subject, whole, last)
        }),
{
    let next = heads_step(context, rest, pattern, subject)->Ok_0;
    if pattern is DomainValue && subject is DomainValue {
        reveal(with_children);
        assert(substituted(pattern, last) == pattern);
        lemma_alike_equal(whole.overloads, pattern);
    } else if pattern is Injection && subject is Injection {
        if pattern->Injection_source == subject->Injection_source {
            lemma_injection_inner(pattern, last);
            lemma_injection_inner(subject, last);
            lemma_part_child(pattern, whole, 0);
            lemma_fits_child(subject, whole, 0);
            assert(next == enqueued(rest, *pattern->Injection_term, *subject->Injection_term));
            assert(next.queue[rest.queue.len() as int] == (
                *pattern->Injection_term,
                *subject->Injection_term,
            ));
            let after = substituted(pattern, last);
            if alike(whole.overloads, *after->Injection_term, *subject->Injection_term) {
                lemma_alike_injection(whole.overloads, *after->Injection_term, subject);
                lemma_alike_injection(whole.overloads, after, subject);
            }
        } else {
            lemma_injections_step(context, rest, pattern, subject, whole, last);
        }
    } else if decomposable(context.mode, pattern, subject) {
        lemma_applications_step(context, rest, pattern, subject, whole, last);
    } else if pattern is KList && subject is KList {
        lemma_lists_step(context.mode, rest, pattern, subject, whole, last);
    } else if pattern is KSet && subject is KSet {
        lemma_sets_step(context.mode, rest, pattern, subject, whole, last);
    } else if pattern is KMap && subject is KMap {
        if rest.queue.len() > 0 {
            let pairs = rest.map_queue;
            assert(next.map_queue == pairs.push((pattern, subject)));
            assert(next.map_queue[pairs.len() as int] == (pattern, subject));
        } else {
            lemma_maps_step(context.mode, rest, pattern, subject, whole, last);
        }
    } else {
        assert(next == deferred(rest, pattern, subject));
    }
}

proof fn lemma_pair_step<'a, K: Kernel>(
    context: Context<'a, K>,
    rest: ProgressV,
    pattern: TermV,
    subject: TermV,
    whole: Whole,
    last: SubstitutionV,
)
    requires
        whole.overloads == overloads_of(context),
        steady(rest.substitution, whole),
        steady(last, whole),
        part(pattern, whole),
        fits(subject, whole),
        pair_step(context, rest, pattern, subject) is Ok,
        ordered(whole.pattern) || whole.closed || binds_within(
            pair_step(context, rest, pattern, subject)->Ok_0.substitution,
            whole.pattern,
        ),
    ensures
        ({
            let next = pair_step(context, rest, pattern, subject)->Ok_0;
            kept_step(rest, next, whole) && sound_step(rest, next, pattern, subject, whole, last)
        }),
{
    reveal(pair_step);
    let next = pair_step(context, rest, pattern, subject)->Ok_0;
    let start = rest.queue.len() as int;
    if context.mode is Implies && pattern == subject {
        lemma_untouched(subject, last, whole);
        lemma_alike_equal(whole.overloads, subject);
    } else if context.mode is Evaluate && (subject is And || (pattern is And
        && subject is Variable)) {
    } else if pattern is And {
        lemma_conjunction_inner(pattern, last);
        lemma_part_child(pattern, whole, 0);
        lemma_part_child(pattern, whole, 1);
        assert(next.queue[start] == (*pattern->And_0, subject));
        assert(next.queue[start + 1] == (*pattern->And_1, subject));
        lemma_alike_conjunction(whole.overloads, substituted(pattern, last), subject);
    } else if subject is And {
        lemma_conjunction_inner(subject, last);
        lemma_fits_child(subject, whole, 0);
        lemma_fits_child(subject, whole, 1);
        assert(next.queue[start] == (pattern, *subject->And_0));
        assert(next.queue[start + 1] == (pattern, *subject->And_1));
        lemma_alike_conjunction(whole.overloads, substituted(pattern, last), subject);
    } else if resolved_overloads(context, pattern, subject) is Some {
        lemma_resolved_step(context, rest, pattern, subject, whole, last);
    } else if pattern is Variable {
        assert(occurs(pattern->Variable_0, pattern));
        lemma_variable_step(context, rest, pattern->Variable_0, subject, whole, last);
    } else if !(subject is Variable) {
        lemma_heads_step(context, rest, pattern, subject, whole, last);
    }
}

/// Whether the pairs of a match can stand where they stand.
spec fn ready(progress: ProgressV, whole: Whole) -> bool {
    &&& pairs_fit(progress.queue, 0, whole)
    &&& pairs_fit(progress.map_queue, 0, whole)
    &&& steady(progress.substitution, whole)
}

proof fn lemma_ready_next(rest: ProgressV, next: ProgressV, whole: Whole)
    requires
        pairs_fit(rest.queue, 0, whole),
        pairs_fit(rest.map_queue, 0, whole),
        kept_step(rest, next, whole),
    ensures
        ready(next, whole),
{
    assert forall|i: int| 0 <= i < next.queue.len() implies part(
        (#[trigger] next.queue[i]).0,
        whole,
    ) && fits(next.queue[i].1, whole) by {
        if i < rest.queue.len() {
            assert(next.queue[i] == rest.queue[i]);
        }
    }
    assert forall|i: int| 0 <= i < next.map_queue.len() implies part(
        (#[trigger] next.map_queue[i]).0,
        whole,
    ) && fits(next.map_queue[i].1, whole) by {
        if i < rest.map_queue.len() {
            assert(next.map_queue[i] == rest.map_queue[i]);
        }
    }
}

proof fn lemma_entry_found(substitution: SubstitutionV, i: int, from: int)
    requires
        0 <= from <= i < substitution.len(),
    ensures
        assoc_from(substitution, substitution[i].0, from) is Some,
    decreases i - from,
{
    if from < i {
        lemma_entry_found(substitution, i, from + 1);
    }
}

/// A step forgets no variable that was bound.
proof fn lemma_bound_keys(
    mode: MatchMode,
    rest: ProgressV,
    variable: VariableV,
    term: TermV,
    whole: Whole,
)
    requires
        bound_step(mode, rest, variable, term) is Ok,
        binds_within(bound_step(mode, rest, variable, term)->Ok_0.substitution, whole.pattern),
    ensures
        binds_within(rest.substitution, whole.pattern),
{
    let next = bound_step(mode, rest, variable, term)->Ok_0;
    if next.substitution != rest.substitution {
        let value = substituted(term, rest.substitution);
        let before = composed_values(seq![(variable, value)], rest.substitution);
        assert forall|i: int| 0 <= i < rest.substitution.len() implies occurs(
            (#[trigger] rest.substitution[i]).0,
            whole.pattern,
        ) by {
            let key = rest.substitution[i].0;
            assert(before[i].0 == key);
            lemma_entry_found(before, i, 0);
            law_bound::<Variable, TermV>(before, variable, value, key);
            lemma_assoc_entry(next.substitution, key, 0);
        }
    }
}

proof fn lemma_step_keys<'a, K: Kernel>(
    context: Context<'a, K>,
    rest: ProgressV,
    pattern: TermV,
    subject: TermV,
    whole: Whole,
)
    requires
        pair_step(context, rest, pattern, subject) is Ok,
        binds_within(pair_step(context, rest, pattern, subject)->Ok_0.substitution, whole.pattern),
    ensures
        binds_within(rest.substitution, whole.pattern),
{
    reveal(pair_step);
    let next = pair_step(context, rest, pattern, subject)->Ok_0;
    if next.substitution != rest.substitution {
        if pattern is Variable {
            let variable = pattern->Variable_0;
            let sort = sort_of(subject);
            let term = if sort == variable.sort {
                subject
            } else {
                injected(sort, variable.sort, subject)
            };
            lemma_bound_keys(context.mode, rest, variable, term, whole);
        } else {
            let term = injected(
                subject->Injection_source,
                pattern->Injection_source,
                *subject->Injection_term,
            );
            lemma_bound_keys(
                context.mode,
                rest,
                (*pattern->Injection_term)->Variable_0,
                term,
                whole,
            );
        }
    }
}

proof fn lemma_matched_keys<'a, K: Kernel>(
    context: Context<'a, K>,
    progress: ProgressV,
    fuel: nat,
    whole: Whole,
)
    requires
        matched(context, progress, fuel) is Ok,
    ensures
        binds_within(matched(context, progress, fuel)->Ok_0.substitution, whole.pattern) ==> binds_within(
            progress.substitution,
            whole.pattern,
        ),
    decreases fuel,
{
    if fuel > 0 && progress.queue.len() + progress.map_queue.len() > 0 {
        let ((pattern, subject), rest) = taken(progress);
        let next = pair_step(context, rest, pattern, subject)->Ok_0;
        lemma_matched_keys(context, next, (fuel - 1) as nat, whole);
        if binds_within(next.substitution, whole.pattern) {
            lemma_step_keys(context, rest, pattern, subject, whole);
        }
    }
}

/// The pair that is looked at next, and the progress without it.
spec fn taken(progress: ProgressV) -> ((TermV, TermV), ProgressV) {
    if progress.queue.len() > 0 {
        (progress.queue[0], ProgressV { queue: progress.queue.remove(0), ..progress })
    } else {
        (progress.map_queue[0], ProgressV { map_queue: progress.map_queue.remove(0), ..progress })
    }
}

proof fn lemma_matched_keeps<'a, K: Kernel>(
    context: Context<'a, K>,
    progress: ProgressV,
    fuel: nat,
    whole: Whole,
)
    requires
        whole.overloads == overloads_of(context),
        ready(progress, whole),
        matched(context, progress, fuel) is Ok,
        ordered(whole.pattern) || whole.closed || binds_within(
            matched(context, progress, fuel)->Ok_0.substitution,
            whole.pattern,
        ),
    ensures
        ({
            let last = matched(context, progress, fuel)->Ok_0;
            &&& last.indeterminate.len() >= progress.indeterminate.len()
            &&& steady(last.substitution, whole)
            &&& extends(last.substitution, progress.substitution)
        }),
    decreases fuel,
{
    if fuel > 0 && progress.queue.len() + progress.map_queue.len() > 0 {
        let ((pattern, subject), rest) = taken(progress);
        let next = pair_step(context, rest, pattern, subject)->Ok_0;
        assert(part(pattern, whole) && fits(subject, whole));
        lemma_matched_keys(context, next, (fuel - 1) as nat, whole);
        lemma_pair_step(context, rest, pattern, subject, whole, rest.substitution);
        lemma_ready_next(rest, next, whole);
        lemma_matched_keeps(context, next, (fuel - 1) as nat, whole);
    }
}

proof fn lemma_matched_alike<'a, K: Kernel>(
    context: Context<'a, K>,
    progress: ProgressV,
    fuel: nat,
    whole: Whole,
)
    requires
        whole.overloads == overloads_of(context),
        ready(progress, whole),
        matched(context, progress, fuel) is Ok,
        matched(context, progress, fuel)->Ok_0.indeterminate.len() == 0,
        ordered(whole.pattern) || whole.closed || binds_within(
            matched(context, progress, fuel)->Ok_0.substitution,
            whole.pattern,
        ),
    ensures
        pairs_hold(
            whole.overloads,
            progress.queue,
            0,
            matched(context, progress, fuel)->Ok_0.substitution,
        ),
        pairs_hold(
            whole.overloads,
            progress.map_queue,
            0,
            matched(context, progress, fuel)->Ok_0.substitution,
        ),
    decreases fuel,
{
    let last = matched(context, progress, fuel)->Ok_0;
    if fuel > 0 && progress.queue.len() + progress.map_queue.len() > 0 {
        let ((pattern, subject), rest) = taken(progress);
        let next = pair_step(context, rest, pattern, subject)->Ok_0;
        assert(part(pattern, whole) && fits(subject, whole));
        lemma_matched_keeps(context, progress, fuel, whole);
        lemma_matched_keys(context, next, (fuel - 1) as nat, whole);
        lemma_pair_step(context, rest, pattern, subject, whole, last.substitution);
        lemma_ready_next(rest, next, whole);
        lemma_matched_keeps(context, next, (fuel - 1) as nat, whole);
        lemma_matched_alike(context, next, (fuel - 1) as nat, whole);
        assert(alike(whole.overloads, substituted(pattern, last.substitution), subject));
        assert forall|i: int| 0 <= i < progress.queue.len() implies alike(
            whole.overloads,
            substituted((#[trigger] progress.queue[i]).0, last.substitution),
            progress.queue[i].1,
        ) by {
            if i > 0 {
                assert(rest.queue[i - 1] == progress.queue[i]);
                assert(next.queue[i - 1] == rest.queue[i - 1]);
            }
        }
        assert forall|i: int| 0 <= i < progress.map_queue.len() implies alike(
            whole.overloads,
            substituted((#[trigger] progress.map_queue[i]).0, last.substitution),
            progress.map_queue[i].1,
        ) by {
            if progress.queue.len() > 0 {
                assert(next.map_queue[i] == rest.map_queue[i]);
            } else if i > 0 {
                assert(rest.map_queue[i - 1] == progress.map_queue[i]);
                assert(next.map_queue[i - 1] == rest.map_queue[i - 1]);
            }
        }
    }
}

/// A match makes the pattern into the subject: where a pattern matches a subject, the pattern is
/// alike to the subject after the substitution, which binds variables of the pattern only. Both are
/// in normal form. Where the pattern has maps or sets in it and the subject has variables, a match
/// may bind those; such a match is left out. For an implication, the two share no variables;
/// elsewhere such a pair does not match.
pub proof fn law_match_is_instance<'a, K: Kernel>(
    context: Context<'a, K>,
    pattern: TermV,
    subject: TermV,
)
    requires
        normal(pattern),
        normal(subject),
        context.mode is Implies ==> intersection(
            variables_of(pattern),
            variables_of(subject),
        ).len() == 0,
        terms_matched(context, pattern, subject) is Success,
        ordered(pattern) || variables_of(subject).len() == 0 || binds_within(
            terms_matched(context, pattern, subject)->Success_0,
            pattern,
        ),
    ensures
        binds_within(terms_matched(context, pattern, subject)->Success_0, pattern),
        alike(
            overloads_of(context),
            substituted(pattern, terms_matched(context, pattern, subject)->Success_0),
            subject,
        ),
{
    if pattern == subject {
        lemma_nothing_substituted(subject);
        lemma_alike_equal(overloads_of(context), subject);
    } else {
        let pairs = seq![(pattern, subject)];
        let start = ProgressV {
            substitution: Seq::empty(),
            queue: pairs,
            map_queue: Seq::empty(),
            indeterminate: Seq::empty(),
        };
        let whole = Whole {
            pattern,
            closed: variables_of(subject).len() == 0,
            overloads: overloads_of(context),
        };
        assert forall|v: VariableV| #[trigger] barred(v, whole) implies !occurs(v, subject) by {
            lemma_variables_into(pattern, Seq::empty(), v);
            lemma_variables_into(subject, Seq::empty(), v);
            law_intersection(variables_of(pattern), variables_of(subject), v);
        }
        assert(part(pattern, whole));
        assert(fits(subject, whole));
        assert(ready(start, whole));
        lemma_matched_keeps(context, start, MATCH_STEPS as nat, whole);
        lemma_matched_alike(context, start, MATCH_STEPS as nat, whole);
        assert(start.queue[0] == (pattern, subject));
    }
}

/// The empty substitution leaves a term in normal form as it is.
pub proof fn lemma_nothing_substituted(term: TermV)
    requires
        normal(term),
    ensures
        substituted(term, Seq::empty()) == term,
    decreases term,
{
    if !(term is Variable) {
        assert forall|i: int| 0 <= i < children(term).len() implies substituted_child(
            term,
            i,
            Seq::empty(),
        ) == children(term)[i] by {
            lemma_child_smaller(term, i);
            lemma_normal_child(term, 0, i);
            lemma_nothing_substituted(children(term)[i]);
        }
        assert(substituted_children(term, Seq::empty()) =~= children(term));
    }
}

proof fn lemma_rigid_argument(variable: VariableV, terms: Seq<TermV>, from: int)
    requires
        0 <= from,
        occurs_rigidly_from(variable, terms, from),
    ensures
        exists|i: int| from <= i < terms.len() && occurs_rigidly(variable, #[trigger] terms[i]),
    decreases terms.len() - from,
{
    if !occurs_rigidly(variable, terms[from]) {
        lemma_rigid_argument(variable, terms, from + 1);
    }
}

/// A variable that is reached through constructors and injections occurs.
pub proof fn law_rigid_occurrence(variable: VariableV, term: TermV)
    requires
        occurs_rigidly(variable, term),
    ensures
        occurs(variable, term),
    decreases term,
{
    reveal(children);
    match term {
        TermV::Injection { term: inner, .. } => {
            law_rigid_occurrence(variable, *inner);
            assert(children(term)[0] == *inner);
            lemma_occurs_child(variable, term, 0, 0);
        },
        TermV::Application { arguments, .. } => {
            lemma_rigid_argument(variable, arguments, 0);
            let i = choose|i: int|
                0 <= i < arguments.len() && occurs_rigidly(variable, #[trigger] arguments[i]);
            lemma_child_smaller(term, i);
            law_rigid_occurrence(variable, children(term)[i]);
            lemma_occurs_child(variable, term, 0, i);
        },
        _ => {},
    }
}

} // verus!
