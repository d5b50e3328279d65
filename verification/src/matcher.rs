//! The matching loop, and matches of whole terms.

use vstd::prelude::*;
use crate::construct::{collect_variables, constructor_like, variables_into, variables_of};
use crate::definition::BackendDefinition;
use crate::kernel::{BuiltinResult, BuiltinResultV, Kernel};
use crate::match_collections::{
    lists_step, maps_step, match_lists, match_maps, match_sets, sets_step, ListRestV,
};
use crate::matching::{
    deferred, enqueued, enqueued_all, injections_step, is_constructor, is_constructor_term,
    is_collection, is_function, is_function_term, is_internal_collection, is_rigid, is_rigid_term,
    is_variable, match_differing_injections, match_variable, same_category, same_collection,
    same_collection_category, collection_definition_matches, step_view, variable_step, Context,
    FailReason, FailReasonV, MatchMode, MatchResult, MatchResultV, Progress, ProgressV, Step,
};
use crate::model::{deep, group_deep, intersect, intersection, Value};
use crate::overload::{
    can_narrow_overload, is_overload_head, narrowable_overload, overload_head, resolve_overloads,
    resolved_overloads,
};
use crate::sorts::SortGraph;
use crate::substitution::Substitution;
use crate::term::{lemma_term_view, rest_view, Symbol, SymbolType, Term, TermV, Variable, VariableV};
use crate::text::is_text;

verus! {

broadcast use group_deep;

// ---------------------------------------------------------------------------------------------
// Updates of lists
// ---------------------------------------------------------------------------------------------
/// Whether `pattern` is an update of a list that can never give the concrete list `subject`.
///
/// Every result of an update at an index with a value is a fixed point of that update: a concrete
/// list with another element there, or without that index, is no result, whatever list is updated.
pub open spec fn refuted_update<K: Kernel>(kernel: K, pattern: TermV, subject: TermV) -> bool {
    match pattern {
        TermV::Application { symbol, arguments, .. } => if symbol.attributes.hook == Some("LIST.update"@)
            && symbol.attributes.symbol_type is Function && constructor_like(subject)
            && subject is KList && subject->KList_rest is None && arguments.len() == 3 {
            match kernel.hook_result(
                "LIST.update"@,
                seq![subject, arguments[1], arguments[2]],
            ) {
                Ok(BuiltinResultV::Bottom) => true,
                Ok(BuiltinResultV::Value(updated)) => constructor_like(updated) && updated
                    != subject,
                _ => false,
            }
        } else {
            false
        },
        _ => false,
    }
}

/// Whether the hook of `symbol` is `hook`.
pub(crate) fn has_hook(symbol: &Symbol, hook: &str) -> (result: bool)
    ensures
        result == (symbol@.attributes.hook == Some(hook@)),
{
    match &symbol.attributes.hook {
        Some(own) => is_text(own, hook),
        None => false,
    }
}

fn list_update_cannot_match<K: Kernel>(kernel: &K, pattern: &Term, subject: &Term) -> (result: bool)
    ensures
        result == refuted_update(*kernel, pattern@, subject@),
{
    proof {
        lemma_term_view(*pattern);
        lemma_term_view(*subject);
    }
    match (pattern, subject) {
        (Term::Application { symbol, arguments, .. }, Term::KList { rest: None, .. }) => {
            if !has_hook(symbol, "LIST.update") || !matches!(
                symbol.attributes.symbol_type,
                SymbolType::Function(_)
            ) || !subject.is_constructor_like() || arguments.len() != 3 {
                return false;
            }
            let mut values: Vec<Term> = Vec::new();
            values.push(subject.duplicate());
            values.push(arguments[1].duplicate());
            values.push(arguments[2].duplicate());
            assert(deep(values@) =~= seq![
                subject@,
                deep(arguments@)[1],
                deep(arguments@)[2],
            ]);
            match kernel.evaluate_hook("LIST.update", values) {
                Ok(BuiltinResult::Bottom) => true,
                Ok(BuiltinResult::Value(updated)) => updated.is_constructor_like()
                    && !updated.equals(subject),
                _ => false,
            }
        },
        _ => false,
    }
}

// ---------------------------------------------------------------------------------------------
// One pair
// ---------------------------------------------------------------------------------------------
/// The opaque part of a list and the items behind it.
pub open spec fn list_rest(term: TermV) -> ListRestV {
    match term->KList_rest {
        Some(middle) => Some((*middle, term->KList_tails)),
        None => None,
    }
}

/// The opaque part of a map or set.
pub open spec fn opened(rest: Option<Box<TermV>>) -> Option<TermV> {
    match rest {
        Some(rest) => Some(*rest),
        None => None,
    }
}

/// The pairs of arguments of two applications.
pub open spec fn argument_pairs(left: Seq<TermV>, right: Seq<TermV>) -> Seq<(TermV, TermV)> {
    Seq::new(left.len(), |i: int| (left[i], right[i]))
}

/// Whether two applications are taken apart: both are of constructors, the pattern's symbol is
/// injective and the same, or equations are matched and both are of functions.
pub open spec fn decomposable(mode: MatchMode, pattern: TermV, subject: TermV) -> bool {
    pattern is Application && subject is Application && ((is_constructor_term(pattern)
        && is_constructor_term(subject)) || (
    pattern->Application_symbol.attributes.injective && pattern->Application_symbol.name
        == subject->Application_symbol.name) || (mode is Evaluate && is_function_term(pattern)
        && is_function_term(subject)))
}

/// The step that matches two applications that are taken apart.
pub open spec fn applications_step(
    mode: MatchMode,
    progress: ProgressV,
    pattern: TermV,
    subject: TermV,
) -> Step {
    let symbol = pattern->Application_symbol;
    if symbol.name != subject->Application_symbol.name {
        if mode is Rewrite || (is_constructor_term(pattern) && is_constructor_term(subject)) {
            Err(FailReasonV::DifferentSymbols(pattern, subject))
        } else {
            Ok(deferred(progress, pattern, subject))
        }
    } else if pattern->Application_arguments.len() != subject->Application_arguments.len() {
        Err(FailReasonV::ArgumentLengthsDiffer(pattern, subject))
    } else if pattern->Application_sort_arguments != subject->Application_sort_arguments {
        Err(FailReasonV::DifferentSorts(pattern, subject))
    } else if !(mode is Rewrite) && (symbol.attributes.associative
        || symbol.attributes.idempotent) {
        Ok(deferred(progress, pattern, subject))
    } else {
        Ok(
            enqueued_all(
                progress,
                argument_pairs(pattern->Application_arguments, subject->Application_arguments),
            ),
        )
    }
}

/// The step that matches two domain values.
pub open spec fn values_step(progress: ProgressV, pattern: TermV, subject: TermV) -> Step {
    if pattern->DomainValue_value != subject->DomainValue_value {
        Err(FailReasonV::DifferentValues(pattern, subject))
    } else if pattern->DomainValue_sort != subject->DomainValue_sort {
        Err(FailReasonV::DifferentSorts(pattern, subject))
    } else {
        Ok(progress)
    }
}

/// The step that matches two terms of which neither is a variable or a conjunction.
pub open spec fn heads_step<'a, K: Kernel>(
    context: Context<'a, K>,
    progress: ProgressV,
    pattern: TermV,
    subject: TermV,
) -> Step {
    let left_open: Step = Ok(deferred(progress, pattern, subject));
    if pattern is DomainValue && subject is DomainValue {
        values_step(progress, pattern, subject)
    } else if pattern is Injection && subject is Injection {
        if pattern->Injection_target != subject->Injection_target {
            Err(FailReasonV::DifferentSorts(pattern, subject))
        } else if pattern->Injection_source == subject->Injection_source {
            Ok(enqueued(progress, *pattern->Injection_term, *subject->Injection_term))
        } else {
            injections_step(context.mode, context.sorts@, progress, pattern, subject)
        }
    } else if decomposable(context.mode, pattern, subject) {
        applications_step(context.mode, progress, pattern, subject)
    } else if pattern is KList && same_collection(pattern, subject) {
        lists_step(
            context.mode,
            progress,
            pattern->KList_definition,
            pattern->KList_heads,
            list_rest(pattern),
            subject->KList_heads,
            list_rest(subject),
        )
    } else if pattern is KSet && same_collection(pattern, subject) {
        sets_step(
            context.mode,
            progress,
            pattern->KSet_definition,
            pattern->KSet_elements,
            opened(pattern->KSet_rest),
            subject->KSet_elements,
            opened(subject->KSet_rest),
        )
    } else if pattern is KMap && same_collection(pattern, subject) {
        if progress.queue.len() > 0 {
            Ok(ProgressV { map_queue: progress.map_queue.push((pattern, subject)), ..progress })
        } else {
            maps_step(
                context.mode,
                progress,
                pattern->KMap_definition,
                pattern->KMap_entries,
                opened(pattern->KMap_rest),
                subject->KMap_entries,
                opened(subject->KMap_rest),
            )
        }
    } else if same_category(pattern, subject) {
        Err(FailReasonV::DifferentSorts(pattern, subject))
    } else if context.mode is Evaluate && ((pattern is Injection && is_internal_collection(subject))
        || (is_internal_collection(pattern) && subject is Injection)) {
        left_open
    } else if narrowable_overload(context, pattern, subject) {
        left_open
    } else if (overload_head(context.definition, pattern) && is_rigid_term(subject)) || (
    is_rigid_term(pattern) && overload_head(context.definition, subject)) {
        Err(FailReasonV::DifferentSymbols(pattern, subject))
    } else if is_rigid_term(pattern) && is_rigid_term(subject) {
        Err(FailReasonV::DifferentSymbols(pattern, subject))
    } else if refuted_update(*context.kernel, pattern, subject) {
        Err(FailReasonV::DifferentValues(pattern, subject))
    } else {
        left_open
    }
}

/// The step that matches one pair.
#[verifier::opaque]
pub open spec fn pair_step<'a, K: Kernel>(
    context: Context<'a, K>,
    progress: ProgressV,
    pattern: TermV,
    subject: TermV,
) -> Step {
    if context.mode is Implies && pattern == subject {
        Ok(progress)
    } else if context.mode is Evaluate && subject is And {
        Ok(deferred(progress, pattern, subject))
    } else if context.mode is Evaluate && pattern is And && subject is Variable {
        Ok(deferred(progress, pattern, subject))
    } else if pattern is And {
        Ok(
            enqueued(
                enqueued(progress, *pattern->And_0, subject),
                *pattern->And_1,
                subject,
            ),
        )
    } else if subject is And {
        Ok(
            enqueued(
                enqueued(progress, pattern, *subject->And_0),
                pattern,
                *subject->And_1,
            ),
        )
    } else {
        match resolved_overloads(context, pattern, subject) {
            Some((pattern, subject)) => Ok(enqueued(progress, pattern, subject)),
            None => if pattern is Variable {
                variable_step(
                    context.mode,
                    context.sorts@,
                    progress,
                    pattern->Variable_0,
                    subject,
                )
            } else if subject is Variable {
                Ok(deferred(progress, pattern, subject))
            } else {
                heads_step(context, progress, pattern, subject)
            },
        }
    }
}

fn match_values(progress: &mut Progress, pattern: &Term, subject: &Term) -> (result: Result<
    (),
    FailReason,
>)
    requires
        pattern is DomainValue,
        subject is DomainValue,
    ensures
        result is Err ==> final(progress)@ == old(progress)@,
        step_view(result, *final(progress)) == values_step(old(progress)@, pattern@, subject@),
{
    proof {
        lemma_term_view(*pattern);
        lemma_term_view(*subject);
    }
    match (pattern, subject) {
        (
            Term::DomainValue { sort, value },
            Term::DomainValue { sort: other_sort, value: other_value },
        ) => {
            if *value != *other_value {
                Err(FailReason::DifferentValues(pattern.duplicate(), subject.duplicate()))
            } else if !sort.equals(other_sort) {
                Err(FailReason::DifferentSorts(pattern.duplicate(), subject.duplicate()))
            } else {
                Ok(())
            }
        },
        _ => Ok(()),
    }
}

pub(crate) fn pair_arguments(left: &Vec<Term>, right: &Vec<Term>) -> (result: Vec<(Term, Term)>)
    requires
        left.len() == right.len(),
    ensures
        deep(result@) == argument_pairs(deep(left@), deep(right@)),
{
    let mut result: Vec<(Term, Term)> = Vec::new();
    let mut i: usize = 0;
    while i < left.len()
        invariant
            i <= left.len(),
            left.len() == right.len(),
            result.len() == i,
            forall|j: int|
                0 <= j < i ==> (#[trigger] result[j]).0@ == left[j]@ && result[j].1@ == right[j]@,
        decreases left.len() - i,
    {
        result.push((left[i].duplicate(), right[i].duplicate()));
        i += 1;
    }
    assert(deep(result@) =~= argument_pairs(deep(left@), deep(right@)));
    result
}

fn is_decomposable(mode: MatchMode, pattern: &Term, subject: &Term) -> (result: bool)
    ensures
        result == decomposable(mode, pattern@, subject@),
{
    proof {
        lemma_term_view(*pattern);
        lemma_term_view(*subject);
    }
    match (pattern, subject) {
        (Term::Application { symbol, .. }, Term::Application { symbol: other, .. }) => {
            (is_constructor(pattern) && is_constructor(subject)) || (symbol.attributes.injective
                && symbol.name == other.name) || (matches!(mode, MatchMode::Evaluate)
                && is_function(pattern) && is_function(subject))
        },
        _ => false,
    }
}

fn match_applications(
    mode: MatchMode,
    progress: &mut Progress,
    pattern: &Term,
    subject: &Term,
) -> (result: Result<(), FailReason>)
    requires
        pattern is Application,
        subject is Application,
    ensures
        result is Err ==> final(progress)@ == old(progress)@,
        step_view(result, *final(progress)) == applications_step(
            mode,
            old(progress)@,
            pattern@,
            subject@,
        ),
{
    proof {
        lemma_term_view(*pattern);
        lemma_term_view(*subject);
    }
    match (pattern, subject) {
        (
            Term::Application { symbol, sort_arguments, arguments },
            Term::Application {
                symbol: other_symbol,
                sort_arguments: other_sorts,
                arguments: other_arguments,
            },
        ) => {
            if symbol.name != other_symbol.name {
                if matches!(mode, MatchMode::Rewrite) || (is_constructor(pattern) && is_constructor(
                    subject,
                )) {
                    return Err(
                        FailReason::DifferentSymbols(pattern.duplicate(), subject.duplicate()),
                    );
                }
                progress.defer(pattern.duplicate(), subject.duplicate());
                return Ok(());
            }
            if arguments.len() != other_arguments.len() {
                return Err(
                    FailReason::ArgumentLengthsDiffer(pattern.duplicate(), subject.duplicate()),
                );
            }
            if !sort_arguments.equals(other_sorts) {
                return Err(FailReason::DifferentSorts(pattern.duplicate(), subject.duplicate()));
            }
            if !matches!(mode, MatchMode::Rewrite) && (symbol.attributes.associative
                || symbol.attributes.idempotent) {
                progress.defer(pattern.duplicate(), subject.duplicate());
                return Ok(());
            }
            progress.enqueue_all(pair_arguments(arguments, other_arguments));
            Ok(())
        },
        _ => Ok(()),
    }
}

/// A copy of the opaque part of a collection.
pub(crate) fn copy_rest(rest: &Option<Box<Term>>) -> (result: Option<Term>)
    ensures
        result.deep_view() == opened(rest_view(*rest)),
{
    match rest {
        Some(rest) => Some(rest.duplicate()),
        None => None,
    }
}

/// A copy of the opaque part of a list and the items behind it.
pub(crate) fn copy_list_rest(rest: &Option<Box<Term>>, tails: &Vec<Term>) -> (result: Option<
    (Term, Vec<Term>),
>)
    ensures
        result.deep_view() == (match rest_view(*rest) {
            Some(middle) => Some((*middle, deep(tails@))),
            None => None,
        }),
{
    match rest {
        Some(rest) => Some((rest.duplicate(), tails.duplicate())),
        None => None,
    }
}

fn match_collections<'a, K: Kernel>(
    context: &Context<'a, K>,
    progress: &mut Progress,
    pattern: &Term,
    subject: &Term,
) -> (result: Result<(), FailReason>)
    requires
        same_collection(pattern@, subject@),
    ensures
        result is Err ==> final(progress)@ == old(progress)@,
        step_view(result, *final(progress)) == heads_step(
            *context,
            old(progress)@,
            pattern@,
            subject@,
        ),
{
    proof {
        lemma_term_view(*pattern);
        lemma_term_view(*subject);
    }
    match (pattern, subject) {
        (
            Term::KList { definition, heads, rest, tails },
            Term::KList { heads: other_heads, rest: other_rest, tails: other_tails, .. },
        ) => match_lists(
            context.mode,
            progress,
            definition,
            heads,
            copy_list_rest(rest, tails),
            other_heads,
            copy_list_rest(other_rest, other_tails),
        ),
        (
            Term::KSet { definition, elements, rest },
            Term::KSet { elements: other_elements, rest: other_rest, .. },
        ) => match_sets(
            context.mode,
            progress,
            definition,
            elements,
            copy_rest(rest),
            other_elements,
            copy_rest(other_rest),
        ),
        (
            Term::KMap { definition, entries, rest },
            Term::KMap { entries: other_entries, rest: other_rest, .. },
        ) => {
            if progress.queue.len() > 0 {
                progress.map_queue.push((pattern.duplicate(), subject.duplicate()));
                Ok(())
            } else {
                match_maps(
                    context.mode,
                    progress,
                    definition,
                    entries,
                    copy_rest(rest),
                    other_entries,
                    copy_rest(other_rest),
                )
            }
        },
        _ => Ok(()),
    }
}

fn match_heads<'a, K: Kernel>(
    context: &Context<'a, K>,
    progress: &mut Progress,
    pattern: &Term,
    subject: &Term,
) -> (result: Result<(), FailReason>)
    ensures
        result is Err ==> final(progress)@ == old(progress)@,
        step_view(result, *final(progress)) == heads_step(
            *context,
            old(progress)@,
            pattern@,
            subject@,
        ),
{
    proof {
        lemma_term_view(*pattern);
        lemma_term_view(*subject);
    }
    if matches!(pattern, Term::DomainValue { .. }) && matches!(subject, Term::DomainValue { .. }) {
        return match_values(progress, pattern, subject);
    }
    if let (
        Term::Injection { source, target, term },
        Term::Injection { source: other_source, target: other_target, term: other_term },
    ) = (pattern, subject) {
        if !target.equals(other_target) {
            return Err(FailReason::DifferentSorts(pattern.duplicate(), subject.duplicate()));
        }
        if source.equals(other_source) {
            progress.enqueue(term.duplicate(), other_term.duplicate());
            return Ok(());
        }
        return match_differing_injections(
            context.mode,
            context.sorts,
            progress,
            pattern,
            subject,
        );
    }
    if is_decomposable(context.mode, pattern, subject) {
        return match_applications(context.mode, progress, pattern, subject);
    }
    if collection_definition_matches(pattern, subject) {
        return match_collections(context, progress, pattern, subject);
    }
    if same_collection_category(pattern, subject) {
        return Err(FailReason::DifferentSorts(pattern.duplicate(), subject.duplicate()));
    }
    if matches!(context.mode, MatchMode::Evaluate) && ((matches!(pattern, Term::Injection { .. })
        && is_collection(subject)) || (is_collection(pattern) && matches!(
        subject,
        Term::Injection { .. }
    ))) {
        progress.defer(pattern.duplicate(), subject.duplicate());
        return Ok(());
    }
    if can_narrow_overload(context, pattern, subject) {
        progress.defer(pattern.duplicate(), subject.duplicate());
        return Ok(());
    }
    if (is_overload_head(context.definition, pattern) && is_rigid(subject)) || (is_rigid(pattern)
        && is_overload_head(context.definition, subject)) {
        return Err(FailReason::DifferentSymbols(pattern.duplicate(), subject.duplicate()));
    }
    if is_rigid(pattern) && is_rigid(subject) {
        return Err(FailReason::DifferentSymbols(pattern.duplicate(), subject.duplicate()));
    }
    if list_update_cannot_match(context.kernel, pattern, subject) {
        return Err(FailReason::DifferentValues(pattern.duplicate(), subject.duplicate()));
    }
    progress.defer(pattern.duplicate(), subject.duplicate());
    Ok(())
}

/// Match one pair.
pub(crate) fn match_one<'a, K: Kernel>(
    context: &Context<'a, K>,
    progress: &mut Progress,
    pattern: Term,
    subject: Term,
) -> (result: Result<(), FailReason>)
    ensures
        result is Err ==> final(progress)@ == old(progress)@,
        step_view(result, *final(progress)) == pair_step(
            *context,
            old(progress)@,
            pattern@,
            subject@,
        ),
{
    reveal(pair_step);
    proof {
        lemma_term_view(pattern);
        lemma_term_view(subject);
    }
    if matches!(context.mode, MatchMode::Implies) && pattern.equals(&subject) {
        return Ok(());
    }
    if matches!(context.mode, MatchMode::Evaluate) && matches!(subject, Term::And(_, _)) {
        progress.defer(pattern, subject);
        return Ok(());
    }
    if matches!(context.mode, MatchMode::Evaluate) && matches!(pattern, Term::And(_, _))
        && is_variable(&subject) {
        progress.defer(pattern, subject);
        return Ok(());
    }
    if let Term::And(left, right) = &pattern {
        progress.enqueue(left.duplicate(), subject.duplicate());
        progress.enqueue(right.duplicate(), subject);
        return Ok(());
    }
    if let Term::And(left, right) = &subject {
        progress.enqueue(pattern.duplicate(), left.duplicate());
        progress.enqueue(pattern, right.duplicate());
        return Ok(());
    }
    if let Some((pattern, subject)) = resolve_overloads(context, &pattern, &subject) {
        progress.enqueue(pattern, subject);
        return Ok(());
    }
    if let Term::Variable(variable) = &pattern {
        return match_variable(context.mode, context.sorts, progress, variable, subject);
    }
    if is_variable(&subject) {
        progress.defer(pattern, subject);
        return Ok(());
    }
    match_heads(context, progress, &pattern, &subject)
}

// ---------------------------------------------------------------------------------------------
// The loop
// ---------------------------------------------------------------------------------------------
/// How many pairs a match looks at before it leaves the others open.
pub const MATCH_STEPS: usize = usize::MAX;

/// The progress after all pairs are matched, of which at most `fuel` are looked at and the others
/// are left open. Pairs of maps come after all others.
pub open spec fn matched<'a, K: Kernel>(
    context: Context<'a, K>,
    progress: ProgressV,
    fuel: nat,
) -> Step
    decreases fuel,
{
    if fuel == 0 {
        Ok(
            ProgressV {
                indeterminate: progress.indeterminate + progress.queue + progress.map_queue,
                queue: Seq::empty(),
                map_queue: Seq::empty(),
                ..progress
            },
        )
    } else if progress.queue.len() > 0 {
        let (pattern, subject) = progress.queue[0];
        let rest = ProgressV { queue: progress.queue.remove(0), ..progress };
        match pair_step(context, rest, pattern, subject) {
            Ok(next) => matched(context, next, (fuel - 1) as nat),
            Err(reason) => Err(reason),
        }
    } else if progress.map_queue.len() > 0 {
        let (pattern, subject) = progress.map_queue[0];
        let rest = ProgressV { map_queue: progress.map_queue.remove(0), ..progress };
        match pair_step(context, rest, pattern, subject) {
            Ok(next) => matched(context, next, (fuel - 1) as nat),
            Err(reason) => Err(reason),
        }
    } else {
        Ok(progress)
    }
}

fn run<'a, K: Kernel>(context: &Context<'a, K>, progress: &mut Progress) -> (result: Result<
    (),
    FailReason,
>)
    ensures
        step_view(result, *final(progress)) == matched(
            *context,
            old(progress)@,
            MATCH_STEPS as nat,
        ),
{
    let mut fuel: usize = MATCH_STEPS;
    while fuel > 0 && (progress.queue.len() > 0 || progress.map_queue.len() > 0)
        invariant
            matched(*context, progress@, fuel as nat) == matched(
                *context,
                old(progress)@,
                MATCH_STEPS as nat,
            ),
        decreases fuel,
    {
        let ghost before = progress@;
        let (pattern, subject) = if progress.queue.len() > 0 {
            assert(before.queue[0] == (progress.queue[0].0@, progress.queue[0].1@));
            let pair = progress.queue.remove(0);
            assert(progress@.queue =~= before.queue.remove(0));
            pair
        } else {
            assert(before.map_queue[0] == (progress.map_queue[0].0@, progress.map_queue[0].1@));
            let pair = progress.map_queue.remove(0);
            assert(progress@.map_queue =~= before.map_queue.remove(0));
            pair
        };
        match match_one(context, progress, pattern, subject) {
            Ok(_) => {},
            Err(reason) => {
                return Err(reason);
            },
        }
        fuel = fuel - 1;
    }
    let ghost last = progress@;
    progress.indeterminate.append(&mut progress.queue);
    progress.indeterminate.append(&mut progress.map_queue);
    proof {
        assert(progress@.queue =~= Seq::<(TermV, TermV)>::empty());
        assert(progress@.map_queue =~= Seq::<(TermV, TermV)>::empty());
        assert(progress@.indeterminate =~= last.indeterminate + last.queue + last.map_queue);
        if fuel > 0 {
            assert(progress@.indeterminate =~= last.indeterminate);
            assert(last.queue =~= progress@.queue);
            assert(last.map_queue =~= progress@.map_queue);
        }
    }
    Ok(())
}

// ---------------------------------------------------------------------------------------------
// Matches of terms
// ---------------------------------------------------------------------------------------------
/// The result of a match that starts with `pairs`: the pairs left open come in the reverse of the
/// order in which they were met.
pub open spec fn pairs_matched<'a, K: Kernel>(
    context: Context<'a, K>,
    pairs: Seq<(TermV, TermV)>,
) -> MatchResultV {
    let start = ProgressV {
        substitution: Seq::empty(),
        queue: pairs,
        map_queue: Seq::empty(),
        indeterminate: Seq::empty(),
    };
    match matched(context, start, MATCH_STEPS as nat) {
        Err(reason) => MatchResultV::Failed(reason),
        Ok(progress) => if progress.indeterminate.len() == 0 {
            MatchResultV::Success(progress.substitution)
        } else {
            MatchResultV::Indeterminate {
                substitution: progress.substitution,
                remainder: progress.indeterminate.reverse(),
            }
        },
    }
}

/// The result of matching `pattern` with `subject`.
///
/// Equal terms match under no binding. A variable on both sides needs unification: the pair is
/// left open where a rule is matched, and an equation does not match.
pub open spec fn terms_matched<'a, K: Kernel>(
    context: Context<'a, K>,
    pattern: TermV,
    subject: TermV,
) -> MatchResultV {
    let shared = intersection(variables_of(pattern), variables_of(subject));
    if pattern == subject {
        MatchResultV::Success(Seq::empty())
    } else if shared.len() > 0 && context.mode is Rewrite {
        MatchResultV::Indeterminate {
            substitution: Seq::empty(),
            remainder: seq![(pattern, subject)],
        }
    } else if shared.len() > 0 && context.mode is Evaluate {
        MatchResultV::Failed(FailReasonV::SharedVariables(shared))
    } else {
        pairs_matched(context, seq![(pattern, subject)])
    }
}

fn reverse(pairs: Vec<(Term, Term)>) -> (result: Vec<(Term, Term)>)
    ensures
        deep(result@) == deep(pairs@).reverse(),
{
    let ghost all = pairs@;
    let mut pairs = pairs;
    let mut result: Vec<(Term, Term)> = Vec::new();
    while pairs.len() > 0
        invariant
            pairs.len() + result.len() == all.len(),
            forall|i: int| 0 <= i < pairs.len() ==> pairs[i] == all[i],
            forall|i: int| 0 <= i < result.len() ==> result[i] == all[all.len() - 1 - i],
        decreases pairs.len(),
    {
        let last = pairs.pop().unwrap();
        result.push(last);
    }
    assert(deep(result@) =~= deep(all).reverse());
    result
}

fn match_pairs<'a, K: Kernel>(context: &Context<'a, K>, pairs: Vec<(Term, Term)>) -> (result:
    MatchResult)
    ensures
        result@ == pairs_matched(*context, deep(pairs@)),
{
    let mut progress = Progress {
        substitution: Substitution::new(),
        queue: pairs,
        map_queue: Vec::new(),
        indeterminate: Vec::new(),
    };
    match run(context, &mut progress) {
        Err(reason) => MatchResult::Failed(reason),
        Ok(_) => {
            if progress.indeterminate.len() == 0 {
                MatchResult::Success(progress.substitution)
            } else {
                MatchResult::Indeterminate {
                    substitution: progress.substitution,
                    remainder: reverse(progress.indeterminate),
                }
            }
        },
    }
}

pub(crate) fn match_terms_with_context<'a, K: Kernel>(
    context: &Context<'a, K>,
    pattern: &Term,
    subject: &Term,
) -> (result: MatchResult)
    ensures
        result@ == terms_matched(*context, pattern@, subject@),
{
    if pattern.equals(subject) {
        return MatchResult::Success(Substitution::new());
    }
    let mut pairs: Vec<(Term, Term)> = Vec::new();
    pairs.push((pattern.duplicate(), subject.duplicate()));
    assert(deep(pairs@) =~= seq![(pattern@, subject@)]);
    let shared = intersect(&pattern.variables(), &subject.variables());
    if shared.len() > 0 {
        match context.mode {
            MatchMode::Rewrite => {
                return MatchResult::Indeterminate {
                    substitution: Substitution::new(),
                    remainder: pairs,
                };
            },
            MatchMode::Evaluate => {
                return MatchResult::Failed(FailReason::SharedVariables(shared));
            },
            MatchMode::Implies => {},
        }
    }
    match_pairs(context, pairs)
}

/// Match `pattern` with `subject` by the sorts and the builtin functions of `kernel` alone.
pub fn match_terms<K: Kernel>(
    mode: MatchMode,
    sorts: &SortGraph,
    kernel: &K,
    pattern: &Term,
    subject: &Term,
) -> (result: MatchResult)
    ensures
        result@ == terms_matched(
            Context { mode, sorts, kernel, definition: None },
            pattern@,
            subject@,
        ),
{
    let context = Context { mode, sorts, kernel, definition: None };
    match_terms_with_context(&context, pattern, subject)
}

/// What a match in `definition` refers to.
pub open spec fn definition_context<'a, K: Kernel>(
    mode: MatchMode,
    definition: &'a BackendDefinition<K>,
) -> Context<'a, K> {
    Context {
        mode,
        sorts: &definition.sort_graph,
        kernel: &definition.kernel,
        definition: Some(definition),
    }
}

/// Match `pattern` with `subject` in `definition`.
pub fn match_terms_in_definition<K: Kernel>(
    mode: MatchMode,
    definition: &BackendDefinition<K>,
    pattern: &Term,
    subject: &Term,
) -> (result: MatchResult)
    ensures
        result@ == terms_matched(definition_context(mode, definition), pattern@, subject@),
{
    let context = Context {
        mode,
        sorts: &definition.sort_graph,
        kernel: &definition.kernel,
        definition: Some(definition),
    };
    match_terms_with_context(&context, pattern, subject)
}

/// The first `count` of `pairs` whose terms differ.
pub open spec fn differing(pairs: Seq<(TermV, TermV)>, count: int) -> Seq<(TermV, TermV)>
    decreases count,
{
    if count <= 0 {
        Seq::empty()
    } else {
        let before = differing(pairs, count - 1);
        if pairs[count - 1].0 == pairs[count - 1].1 {
            before
        } else {
            before.push(pairs[count - 1])
        }
    }
}

/// The variables on one side of `pairs`, from `from` on.
pub open spec fn side_variables(
    pairs: Seq<(TermV, TermV)>,
    left: bool,
    found: Seq<VariableV>,
    from: int,
) -> Seq<VariableV>
    decreases pairs.len() - from,
{
    if from >= pairs.len() {
        found
    } else {
        side_variables(
            pairs,
            left,
            variables_into(
                if left {
                    pairs[from].0
                } else {
                    pairs[from].1
                },
                found,
            ),
            from + 1,
        )
    }
}

/// The result of matching several pairs at once.
pub open spec fn term_pairs_matched<'a, K: Kernel>(
    context: Context<'a, K>,
    all: Seq<(TermV, TermV)>,
) -> MatchResultV {
    let pairs = differing(all, all.len() as int);
    let shared = intersection(
        side_variables(pairs, true, Seq::empty(), 0),
        side_variables(pairs, false, Seq::empty(), 0),
    );
    if pairs.len() == 0 {
        MatchResultV::Success(Seq::empty())
    } else if shared.len() > 0 && context.mode is Rewrite {
        MatchResultV::Indeterminate { substitution: Seq::empty(), remainder: pairs }
    } else if shared.len() > 0 && context.mode is Evaluate {
        MatchResultV::Failed(FailReasonV::SharedVariables(shared))
    } else {
        pairs_matched(context, pairs)
    }
}

fn collect_side_variables(pairs: &Vec<(Term, Term)>, left: bool) -> (result: Vec<Variable>)
    ensures
        deep(result@) == side_variables(deep(pairs@), left, Seq::empty(), 0),
{
    let mut found: Vec<Variable> = Vec::new();
    let mut i: usize = 0;
    while i < pairs.len()
        invariant
            i <= pairs.len(),
            side_variables(deep(pairs@), left, deep(found@), i as int) == side_variables(
                deep(pairs@),
                left,
                Seq::empty(),
                0,
            ),
        decreases pairs.len() - i,
    {
        assert(deep(pairs@)[i as int] == (pairs[i as int].0@, pairs[i as int].1@));
        if left {
            collect_variables(&pairs[i].0, &mut found);
        } else {
            collect_variables(&pairs[i].1, &mut found);
        }
        i += 1;
    }
    found
}

/// Match several pairs at once in `definition`.
pub(crate) fn match_term_pairs_in_definition<K: Kernel>(
    mode: MatchMode,
    definition: &BackendDefinition<K>,
    all: &Vec<(Term, Term)>,
) -> (result: MatchResult)
    ensures
        result@ == term_pairs_matched(definition_context(mode, definition), deep(all@)),
{
    let context = Context {
        mode,
        sorts: &definition.sort_graph,
        kernel: &definition.kernel,
        definition: Some(definition),
    };
    let mut pairs: Vec<(Term, Term)> = Vec::new();
    let mut i: usize = 0;
    while i < all.len()
        invariant
            i <= all.len(),
            deep(pairs@) == differing(deep(all@), i as int),
        decreases all.len() - i,
    {
        assert(deep(all@)[i as int] == (all[i as int].0@, all[i as int].1@));
        if !all[i].0.equals(&all[i].1) {
            pairs.push(all[i].duplicate());
        }
        i += 1;
    }
    if pairs.len() == 0 {
        return MatchResult::Success(Substitution::new());
    }
    let shared = intersect(
        &collect_side_variables(&pairs, true),
        &collect_side_variables(&pairs, false),
    );
    if shared.len() > 0 {
        match mode {
            MatchMode::Rewrite => {
                return MatchResult::Indeterminate {
                    substitution: Substitution::new(),
                    remainder: pairs,
                };
            },
            MatchMode::Evaluate => {
                return MatchResult::Failed(FailReason::SharedVariables(shared));
            },
            MatchMode::Implies => {},
        }
    }
    match_pairs(&context, pairs)
}

} // verus!
