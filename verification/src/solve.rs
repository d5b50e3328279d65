//! The solutions of all pairs of collections that a match leaves open.

use vstd::prelude::*;
use crate::assoc::{assoc, assoc_get, collect_assoc, collected};
use crate::collections::{
    as_solutions, cancel_common_opaque_chunks, into_solutions, lists_solved, solve_list_pair,
    solve_term_pair, term_pair_solved, without_common_chunks, CollectionSolution,
    CollectionSolutionV, Narrowing, NarrowingV, PairSolution, PairSolutionV,
};
use crate::definition::BackendDefinition;
use crate::kernel::Kernel;
use crate::match_collections::{lemma_optional_view, unmatched, without_common_keys};
use crate::matcher::{copy_rest, opened};
use crate::matching::{is_variable, MatchMode};
use crate::model::{deep, difference, group_deep, intersect, intersection, subtract, Value};
use crate::order::{increasing, law_sorted};
use crate::ops::{extended_upto, into_sorted, sorted};
use crate::predicate::Predicate;
use crate::problems::{
    elements_as_items, entries_as_items, searched, CollectionProblem, CollectionProblemV, ItemV,
    Search, SearchV,
};
use crate::substitution::{substitute, substituted, Substitution, SubstitutionV};
use crate::term::{
    lemma_term_view, CollectionDefinition, CollectionDefinitionV, CollectionMetadata,
    CollectionMetadataV, Term, TermV,
};

verus! {

broadcast use {group_deep, lemma_optional_view};

/// The solutions, where all are known, and the source of fresh variables after they were made.
pub type Solutions = (Option<Seq<CollectionSolutionV>>, Option<NarrowingV>);

// ---------------------------------------------------------------------------------------------
// Maps
// ---------------------------------------------------------------------------------------------
/// `next` with what each of the solutions from `from` on becomes by solving one pair.
pub open spec fn each_pair_solved<K: Kernel>(
    mode: MatchMode,
    definition: BackendDefinition<K>,
    solutions: Seq<CollectionSolutionV>,
    pattern: TermV,
    subject: TermV,
    narrow: bool,
    next: Seq<CollectionSolutionV>,
    from: int,
) -> Option<Seq<CollectionSolutionV>>
    decreases solutions.len() - from,
{
    if from >= solutions.len() {
        Some(next)
    } else {
        match term_pair_solved(mode, definition, solutions[from], pattern, subject, narrow) {
            PairSolutionV::Solved(solution) => each_pair_solved(
                mode,
                definition,
                solutions,
                pattern,
                subject,
                narrow,
                next.push(solution),
                from + 1,
            ),
            PairSolutionV::NoSolution => each_pair_solved(
                mode,
                definition,
                solutions,
                pattern,
                subject,
                narrow,
                next,
                from + 1,
            ),
            PairSolutionV::Indeterminate => None,
        }
    }
}

/// What the solutions become by solving the values of the keys, from position `from` on, that both
/// maps have.
pub open spec fn common_solved<K: Kernel>(
    mode: MatchMode,
    definition: BackendDefinition<K>,
    left: Seq<(TermV, TermV)>,
    right: Seq<(TermV, TermV)>,
    solutions: Seq<CollectionSolutionV>,
    narrow: bool,
    from: int,
) -> Option<Seq<CollectionSolutionV>>
    decreases left.len() - from,
{
    if from >= left.len() {
        Some(solutions)
    } else {
        match assoc(right, left[from].0) {
            None => common_solved(mode, definition, left, right, solutions, narrow, from + 1),
            Some(value) => match each_pair_solved(
                mode,
                definition,
                solutions,
                left[from].1,
                value,
                narrow,
                Seq::empty(),
                0,
            ) {
                Some(next) => common_solved(
                    mode,
                    definition,
                    left,
                    right,
                    next,
                    narrow,
                    from + 1,
                ),
                None => None,
            },
        }
    }
}

/// What is found from each of the solutions from `from` on.
pub open spec fn searched_all<'a, K: Kernel>(
    problem: CollectionProblemV<'a, K>,
    remaining: Seq<ItemV>,
    solutions: Seq<CollectionSolutionV>,
    search: SearchV,
    from: int,
) -> SearchV
    decreases solutions.len() - from,
{
    if from >= solutions.len() {
        search
    } else {
        searched_all(
            problem,
            remaining,
            solutions,
            searched(problem, 0, remaining, Seq::empty(), solutions[from], search),
            from + 1,
        )
    }
}

/// The solutions that a search found, where it missed none.
pub open spec fn search_result(search: SearchV) -> Solutions {
    (
        if search.indeterminate {
            None
        } else {
            Some(search.found)
        },
        search.narrowing,
    )
}

/// The search before anything is found.
pub open spec fn search_start(narrowing: Option<NarrowingV>) -> SearchV {
    SearchV { narrowing, found: Seq::empty(), indeterminate: false }
}

/// The solutions of two maps.
pub open spec fn maps_solved<K: Kernel>(
    mode: MatchMode,
    backend: &BackendDefinition<K>,
    pattern: TermV,
    subject: TermV,
    solution: CollectionSolutionV,
    narrowing: Option<NarrowingV>,
) -> Solutions {
    let definition = pattern->KMap_definition;
    let left = collected::<Term, TermV>(pattern->KMap_entries);
    let right = collected::<Term, TermV>(subject->KMap_entries);
    if definition != subject->KMap_definition {
        (Some(Seq::empty()), narrowing)
    } else if left.len() != pattern->KMap_entries.len() || right.len()
        != subject->KMap_entries.len() {
        (None, narrowing)
    } else {
        match common_solved(
            mode,
            *backend,
            left,
            right,
            seq![solution],
            narrowing is Some,
            0,
        ) {
            None => (None, narrowing),
            Some(solutions) => {
                let problem = CollectionProblemV {
                    mode,
                    backend,
                    definition,
                    is_map: true,
                    items: entries_as_items(unmatched(left, right, left.len() as int)),
                    rest: without_common_chunks(
                        opened(pattern->KMap_rest),
                        opened(subject->KMap_rest),
                        definition.concat,
                    ),
                    subject_rest: without_common_chunks(
                        opened(subject->KMap_rest),
                        opened(pattern->KMap_rest),
                        definition.concat,
                    ),
                };
                search_result(
                    searched_all(
                        problem,
                        entries_as_items(unmatched(right, left, right.len() as int)),
                        solutions,
                        search_start(narrowing),
                        0,
                    ),
                )
            },
        }
    }
}

fn solve_each_pair<K: Kernel>(
    mode: MatchMode,
    definition: &BackendDefinition<K>,
    solutions: &Vec<CollectionSolution>,
    pattern: &Term,
    subject: &Term,
    narrow: bool,
) -> (result: Option<Vec<CollectionSolution>>)
    ensures
        result.deep_view() == each_pair_solved(
            mode,
            *definition,
            deep(solutions@),
            pattern@,
            subject@,
            narrow,
            Seq::empty(),
            0,
        ),
{
    let mut next: Vec<CollectionSolution> = Vec::new();
    let mut i: usize = 0;
    while i < solutions.len()
        invariant
            i <= solutions.len(),
            each_pair_solved(
                mode,
                *definition,
                deep(solutions@),
                pattern@,
                subject@,
                narrow,
                Seq::empty(),
                0,
            ) == each_pair_solved(
                mode,
                *definition,
                deep(solutions@),
                pattern@,
                subject@,
                narrow,
                deep(next@),
                i as int,
            ),
        decreases solutions.len() - i,
    {
        assert(deep(solutions@)[i as int] == solutions[i as int]@);
        match solve_term_pair(
            mode,
            definition,
            solutions[i].duplicate(),
            pattern,
            subject,
            narrow,
        ) {
            PairSolution::Solved(solution) => {
                next.push(solution);
            },
            PairSolution::NoSolution => {},
            PairSolution::Indeterminate => {
                return None;
            },
        }
        i += 1;
    }
    Some(next)
}

fn solve_common<K: Kernel>(
    mode: MatchMode,
    definition: &BackendDefinition<K>,
    left: &Vec<(Term, Term)>,
    right: &Vec<(Term, Term)>,
    solution: CollectionSolution,
    narrow: bool,
) -> (result: Option<Vec<CollectionSolution>>)
    ensures
        result.deep_view() == common_solved(
            mode,
            *definition,
            deep(left@),
            deep(right@),
            seq![solution@],
            narrow,
            0,
        ),
{
    let ghost start = seq![solution@];
    let mut solutions: Vec<CollectionSolution> = Vec::new();
    solutions.push(solution);
    assert(deep(solutions@) =~= start);
    let mut i: usize = 0;
    while i < left.len()
        invariant
            i <= left.len(),
            start == seq![solution@],
            common_solved(
                mode,
                *definition,
                deep(left@),
                deep(right@),
                start,
                narrow,
                0,
            ) == common_solved(
                mode,
                *definition,
                deep(left@),
                deep(right@),
                deep(solutions@),
                narrow,
                i as int,
            ),
        decreases left.len() - i,
    {
        assert(deep(left@)[i as int] == (left[i as int].0@, left[i as int].1@));
        if let Some(value) = assoc_get(right, &left[i].0) {
            match solve_each_pair(mode, definition, &solutions, &left[i].1, value, narrow) {
                Some(next) => {
                    solutions = next;
                },
                None => {
                    return None;
                },
            }
        }
        i += 1;
    }
    Some(solutions)
}

fn entries_to_items(entries: &Vec<(Term, Term)>) -> (result: Vec<(Term, Option<Term>)>)
    ensures
        deep(result@) == entries_as_items(deep(entries@)),
{
    let mut result: Vec<(Term, Option<Term>)> = Vec::new();
    let mut i: usize = 0;
    while i < entries.len()
        invariant
            i <= entries.len(),
            result.len() == i,
            forall|j: int|
                0 <= j < i ==> (#[trigger] result[j]).deep_view() == entries_as_items(
                    deep(entries@),
                )[j],
        decreases entries.len() - i,
    {
        result.push((entries[i].0.duplicate(), Some(entries[i].1.duplicate())));
        i += 1;
    }
    assert(deep(result@) =~= entries_as_items(deep(entries@)));
    result
}

fn elements_to_items(elements: &Vec<Term>) -> (result: Vec<(Term, Option<Term>)>)
    ensures
        deep(result@) == elements_as_items(deep(elements@)),
{
    let mut result: Vec<(Term, Option<Term>)> = Vec::new();
    let mut i: usize = 0;
    while i < elements.len()
        invariant
            i <= elements.len(),
            result.len() == i,
            forall|j: int|
                0 <= j < i ==> (#[trigger] result[j]).deep_view() == elements_as_items(
                    deep(elements@),
                )[j],
        decreases elements.len() - i,
    {
        result.push((elements[i].duplicate(), None));
        i += 1;
    }
    assert(deep(result@) =~= elements_as_items(deep(elements@)));
    result
}

fn search_all<'a, K: Kernel>(
    problem: &CollectionProblem<'a, K>,
    remaining: &Vec<(Term, Option<Term>)>,
    solutions: &Vec<CollectionSolution>,
    narrowing: &mut Option<Narrowing>,
) -> (result: Option<Vec<CollectionSolution>>)
    ensures
        (result.deep_view(), final(narrowing).deep_view()) == search_result(
            searched_all(
                problem@,
                deep(remaining@),
                deep(solutions@),
                search_start(old(narrowing).deep_view()),
                0,
            ),
        ),
{
    let ghost start = search_start(narrowing.deep_view());
    let mut search = Search { narrowing: narrowing.take(), found: Vec::new(), indeterminate: false };
    assert(search@ == start);
    let mut i: usize = 0;
    while i < solutions.len()
        invariant
            i <= solutions.len(),
            searched_all(problem@, deep(remaining@), deep(solutions@), start, 0) == searched_all(
                problem@,
                deep(remaining@),
                deep(solutions@),
                search@,
                i as int,
            ),
        decreases solutions.len() - i,
    {
        assert(deep(solutions@)[i as int] == solutions[i as int]@);
        problem.search(0, remaining, &Vec::new(), solutions[i].duplicate(), &mut search);
        i += 1;
    }
    *narrowing = search.narrowing;
    if search.indeterminate {
        None
    } else {
        Some(search.found)
    }
}

fn solve_map_pair<K: Kernel>(
    mode: MatchMode,
    backend: &BackendDefinition<K>,
    pattern: &Term,
    subject: &Term,
    solution: CollectionSolution,
    narrowing: &mut Option<Narrowing>,
) -> (result: Option<Vec<CollectionSolution>>)
    requires
        pattern is KMap,
        subject is KMap,
    ensures
        (result.deep_view(), final(narrowing).deep_view()) == maps_solved(
            mode,
            backend,
            pattern@,
            subject@,
            solution@,
            old(narrowing).deep_view(),
        ),
{
    proof {
        lemma_term_view(*pattern);
        lemma_term_view(*subject);
    }
    match (pattern, subject) {
        (
            Term::KMap { definition, entries, rest },
            Term::KMap { definition: other, entries: subject_entries, rest: subject_rest },
        ) => {
            if !definition.equals(other) {
                return Some(Vec::new());
            }
            let left = collect_assoc(entries);
            let right = collect_assoc(subject_entries);
            if left.len() != entries.len() || right.len() != subject_entries.len() {
                return None;
            }
            let narrow: bool = narrowing.is_some();
            let solutions = match solve_common(mode, backend, &left, &right, solution, narrow) {
                Some(solutions) => solutions,
                None => {
                    return None;
                },
            };
            let (rest, subject_rest) = cancel_common_opaque_chunks(
                copy_rest(rest),
                copy_rest(subject_rest),
                &definition.concat,
            );
            let problem = CollectionProblem {
                mode,
                backend,
                definition: definition.duplicate(),
                is_map: true,
                items: entries_to_items(&without_common_keys(&left, &right)),
                rest,
                subject_rest,
            };
            let remaining = entries_to_items(&without_common_keys(&right, &left));
            search_all(&problem, &remaining, &solutions, narrowing)
        },
        _ => None,
    }
}

// ---------------------------------------------------------------------------------------------
// Sets
// ---------------------------------------------------------------------------------------------
/// The definition by whose `concat` the symbol of an application concatenates collections.
pub open spec fn concatenates(metadata: Option<CollectionMetadataV>, name: Seq<char>) -> bool {
    match metadata {
        Some(CollectionMetadataV::KMap(definition)) => definition.concat == name,
        Some(CollectionMetadataV::KList(definition)) => definition.concat == name,
        Some(CollectionMetadataV::KSet(definition)) => definition.concat == name,
        None => false,
    }
}

/// Whether `term` is a collection, or an opaque concatenation of collections.
pub open spec fn is_collection_view(term: TermV) -> bool {
    match term {
        TermV::KMap { .. } | TermV::KList { .. } | TermV::KSet { .. } => true,
        TermV::Application { symbol, .. } => concatenates(
            symbol.attributes.collection,
            symbol.name,
        ),
        _ => false,
    }
}

/// Whether `term` is a collection, or an opaque concatenation of collections, which stays a bare
/// application where it holds no item.
pub(crate) fn is_collection_term(term: &Term) -> (result: bool)
    ensures
        result == is_collection_view(term@),
{
    proof {
        lemma_term_view(*term);
    }
    match term {
        Term::KMap { .. } | Term::KList { .. } | Term::KSet { .. } => true,
        Term::Application { symbol, .. } => match &symbol.attributes.collection {
            Some(CollectionMetadata::KMap(definition)) => definition.concat == symbol.name,
            Some(CollectionMetadata::KList(definition)) => definition.concat == symbol.name,
            Some(CollectionMetadata::KSet(definition)) => definition.concat == symbol.name,
            None => false,
        },
        _ => false,
    }
}

/// The parts of a set, or of an opaque concatenation of sets, seen as a set without elements and
/// with the concatenation as its rest.
pub open spec fn set_parts_of(term: TermV) -> Option<
    (CollectionDefinitionV, Seq<TermV>, Option<TermV>),
> {
    match term {
        TermV::KSet { definition, elements, rest } => Some((definition, elements, opened(rest))),
        TermV::Application { symbol, .. } => match symbol.attributes.collection {
            Some(CollectionMetadataV::KSet(definition)) => if definition.concat == symbol.name {
                Some((definition, Seq::empty(), Some(term)))
            } else {
                None
            },
            _ => None,
        },
        _ => None,
    }
}

fn set_parts(term: &Term) -> (result: Option<(CollectionDefinition, Vec<Term>, Option<Term>)>)
    ensures
        result.deep_view() == set_parts_of(term@),
{
    proof {
        lemma_term_view(*term);
    }
    match term {
        Term::KSet { definition, elements, rest } => Some(
            (definition.duplicate(), elements.duplicate(), copy_rest(rest)),
        ),
        Term::Application { symbol, .. } => match &symbol.attributes.collection {
            Some(CollectionMetadata::KSet(definition)) => {
                if definition.concat == symbol.name {
                    Some((definition.duplicate(), Vec::new(), Some(term.duplicate())))
                } else {
                    None
                }
            },
            _ => None,
        },
        _ => None,
    }
}

/// The solutions of two sets.
pub open spec fn sets_solved<K: Kernel>(
    mode: MatchMode,
    backend: &BackendDefinition<K>,
    pattern: TermV,
    subject: TermV,
    solution: CollectionSolutionV,
    narrowing: Option<NarrowingV>,
) -> Solutions {
    match (set_parts_of(pattern), set_parts_of(subject)) {
        (Some((definition, elements, rest)), Some((other, subject_elements, subject_rest))) => {
            let all_left = sorted::<Term>(elements);
            let all_right = sorted::<Term>(subject_elements);
            let problem = CollectionProblemV {
                mode,
                backend,
                definition,
                is_map: false,
                items: elements_as_items(difference(all_left, intersection(all_left, all_right))),
                rest: without_common_chunks(rest, subject_rest, definition.concat),
                subject_rest: without_common_chunks(subject_rest, rest, definition.concat),
            };
            if definition != other {
                (Some(Seq::empty()), narrowing)
            } else {
                search_result(
                    searched_all(
                        problem,
                        elements_as_items(
                            difference(all_right, intersection(all_left, all_right)),
                        ),
                        seq![solution],
                        search_start(narrowing),
                        0,
                    ),
                )
            }
        },
        _ => (None, narrowing),
    }
}

fn solve_set_pair<K: Kernel>(
    mode: MatchMode,
    backend: &BackendDefinition<K>,
    pattern: &Term,
    subject: &Term,
    solution: CollectionSolution,
    narrowing: &mut Option<Narrowing>,
) -> (result: Option<Vec<CollectionSolution>>)
    ensures
        (result.deep_view(), final(narrowing).deep_view()) == sets_solved(
            mode,
            backend,
            pattern@,
            subject@,
            solution@,
            old(narrowing).deep_view(),
        ),
{
    match (set_parts(pattern), set_parts(subject)) {
        (Some((definition, elements, rest)), Some((other, subject_elements, subject_rest))) => {
            if !definition.equals(&other) {
                return Some(Vec::new());
            }
            let (rest, subject_rest) = cancel_common_opaque_chunks(
                rest,
                subject_rest,
                &definition.concat,
            );
            let all_left = into_sorted(&elements);
            let all_right = into_sorted(&subject_elements);
            let common = intersect(&all_left, &all_right);
            let problem = CollectionProblem {
                mode,
                backend,
                definition,
                is_map: false,
                items: elements_to_items(&subtract(&all_left, &common)),
                rest,
                subject_rest,
            };
            let remaining = elements_to_items(&subtract(&all_right, &common));
            let ghost start = seq![solution@];
            let mut solutions: Vec<CollectionSolution> = Vec::new();
            solutions.push(solution);
            assert(deep(solutions@) =~= start);
            search_all(&problem, &remaining, &solutions, narrowing)
        },
        _ => None,
    }
}

// ---------------------------------------------------------------------------------------------
// All pairs
// ---------------------------------------------------------------------------------------------
/// The solutions of one pair.
pub open spec fn collection_pair_solved<K: Kernel>(
    mode: MatchMode,
    definition: &BackendDefinition<K>,
    pattern: TermV,
    subject: TermV,
    solution: CollectionSolutionV,
    narrowing: Option<NarrowingV>,
) -> Solutions {
    let pattern = substituted(pattern, solution.substitution);
    let subject = substituted(subject, solution.substitution);
    if pattern is KMap && subject is KMap {
        maps_solved(mode, definition, pattern, subject, solution, narrowing)
    } else if subject is KSet && (pattern is KSet || (pattern is Application && set_parts_of(
        pattern,
    ) is Some)) {
        sets_solved(mode, definition, pattern, subject, solution, narrowing)
    } else if pattern is KList && subject is KList {
        (
            lists_solved(mode, *definition, pattern, subject, solution, narrowing is Some),
            narrowing,
        )
    } else if (pattern is KMap || pattern is KSet || pattern is KList) && subject is Variable
        && narrowing is Some {
        (
            as_solutions(
                term_pair_solved(mode, *definition, solution, pattern, subject, true),
            ),
            narrowing,
        )
    } else {
        (None, narrowing)
    }
}

fn solve_collection_pair<K: Kernel>(
    mode: MatchMode,
    definition: &BackendDefinition<K>,
    pattern: &Term,
    subject: &Term,
    solution: CollectionSolution,
    narrowing: &mut Option<Narrowing>,
) -> (result: Option<Vec<CollectionSolution>>)
    ensures
        (result.deep_view(), final(narrowing).deep_view()) == collection_pair_solved(
            mode,
            definition,
            pattern@,
            subject@,
            solution@,
            old(narrowing).deep_view(),
        ),
{
    let pattern = substitute(pattern, &solution.substitution);
    let subject = substitute(subject, &solution.substitution);
    proof {
        lemma_term_view(pattern);
        lemma_term_view(subject);
    }
    if matches!(pattern, Term::KMap { .. }) && matches!(subject, Term::KMap { .. }) {
        return solve_map_pair(mode, definition, &pattern, &subject, solution, narrowing);
    }
    if matches!(subject, Term::KSet { .. }) && (matches!(pattern, Term::KSet { .. }) || (matches!(
        pattern,
        Term::Application { .. }
    ) && set_parts(&pattern).is_some())) {
        return solve_set_pair(mode, definition, &pattern, &subject, solution, narrowing);
    }
    let narrow: bool = narrowing.is_some();
    if matches!(pattern, Term::KList { .. }) && matches!(subject, Term::KList { .. }) {
        return solve_list_pair(mode, definition, &pattern, &subject, solution, narrow);
    }
    if matches!(pattern, Term::KMap { .. } | Term::KSet { .. } | Term::KList { .. })
        && is_variable(&subject) && narrow {
        return into_solutions(
            solve_term_pair(mode, definition, solution, &pattern, &subject, true),
        );
    }
    None
}

/// `next` with the solutions of one pair that start from each of the solutions from `from` on.
pub open spec fn each_collection_solved<K: Kernel>(
    mode: MatchMode,
    definition: &BackendDefinition<K>,
    pattern: TermV,
    subject: TermV,
    solutions: Seq<CollectionSolutionV>,
    next: Seq<CollectionSolutionV>,
    narrowing: Option<NarrowingV>,
    from: int,
) -> Solutions
    decreases solutions.len() - from,
{
    if from >= solutions.len() {
        (Some(next), narrowing)
    } else {
        match collection_pair_solved(
            mode,
            definition,
            pattern,
            subject,
            solutions[from],
            narrowing,
        ) {
            (Some(found), narrowing) => each_collection_solved(
                mode,
                definition,
                pattern,
                subject,
                solutions,
                next + found,
                narrowing,
                from + 1,
            ),
            (None, narrowing) => (None, narrowing),
        }
    }
}

/// The solutions of the pairs from `from` on that start from `solutions`.
pub open spec fn collections_solved_from<K: Kernel>(
    mode: MatchMode,
    definition: &BackendDefinition<K>,
    pairs: Seq<(TermV, TermV)>,
    solutions: Seq<CollectionSolutionV>,
    narrowing: Option<NarrowingV>,
    from: int,
) -> Solutions
    decreases pairs.len() - from,
{
    if from >= pairs.len() {
        (Some(solutions), narrowing)
    } else {
        match each_collection_solved(
            mode,
            definition,
            pairs[from].0,
            pairs[from].1,
            solutions,
            Seq::empty(),
            narrowing,
            0,
        ) {
            (Some(next), narrowing) => collections_solved_from(
                mode,
                definition,
                pairs,
                next,
                narrowing,
                from + 1,
            ),
            (None, narrowing) => (None, narrowing),
        }
    }
}

/// The solution with its constraints in order, each once.
pub open spec fn tidied(solution: CollectionSolutionV) -> CollectionSolutionV {
    CollectionSolutionV { constraints: sorted::<Predicate>(solution.constraints), ..solution }
}

/// The solutions of `pairs`, in order, each once.
pub open spec fn collections_solved<K: Kernel>(
    mode: MatchMode,
    definition: &BackendDefinition<K>,
    initial: SubstitutionV,
    pairs: Seq<(TermV, TermV)>,
    narrowing: Option<NarrowingV>,
) -> Solutions {
    let start = CollectionSolutionV {
        substitution: initial,
        constraints: Seq::empty(),
        fresh: Seq::empty(),
    };
    match collections_solved_from(mode, definition, pairs, seq![start], narrowing, 0) {
        (Some(solutions), narrowing) => (
            Some(
                sorted::<CollectionSolution>(
                    Seq::new(solutions.len(), |i: int| tidied(solutions[i])),
                ),
            ),
            narrowing,
        ),
        (None, narrowing) => (None, narrowing),
    }
}

fn solve_each_collection<K: Kernel>(
    mode: MatchMode,
    definition: &BackendDefinition<K>,
    pattern: &Term,
    subject: &Term,
    solutions: &Vec<CollectionSolution>,
    narrowing: &mut Option<Narrowing>,
) -> (result: Option<Vec<CollectionSolution>>)
    ensures
        (result.deep_view(), final(narrowing).deep_view()) == each_collection_solved(
            mode,
            definition,
            pattern@,
            subject@,
            deep(solutions@),
            Seq::empty(),
            old(narrowing).deep_view(),
            0,
        ),
{
    let ghost start = narrowing.deep_view();
    let mut next: Vec<CollectionSolution> = Vec::new();
    let mut i: usize = 0;
    while i < solutions.len()
        invariant
            i <= solutions.len(),
            start == old(narrowing).deep_view(),
            each_collection_solved(
                mode,
                definition,
                pattern@,
                subject@,
                deep(solutions@),
                Seq::empty(),
                start,
                0,
            ) == each_collection_solved(
                mode,
                definition,
                pattern@,
                subject@,
                deep(solutions@),
                deep(next@),
                narrowing.deep_view(),
                i as int,
            ),
        decreases solutions.len() - i,
    {
        assert(deep(solutions@)[i as int] == solutions[i as int]@);
        match solve_collection_pair(
            mode,
            definition,
            pattern,
            subject,
            solutions[i].duplicate(),
            narrowing,
        ) {
            Some(found) => {
                let mut found = found;
                next.append(&mut found);
            },
            None => {
                return None;
            },
        }
        i += 1;
    }
    Some(next)
}

/// Solve the pairs of collections that a match left open, in the order of the pairs.
///
/// There is no result where a pair needs a theory outside the supported fragment; an empty result
/// means that the pairs have no common instance. With a source of fresh variables, a variable that
/// is the rest of a subject's collection may be bound to items of the pattern.
pub(crate) fn solve_collection_pairs_in_definition<K: Kernel>(
    mode: MatchMode,
    definition: &BackendDefinition<K>,
    initial: Substitution,
    pairs: &Vec<(Term, Term)>,
    narrowing: &mut Option<Narrowing>,
) -> (result: Option<Vec<CollectionSolution>>)
    ensures
        (result.deep_view(), final(narrowing).deep_view()) == collections_solved(
            mode,
            definition,
            initial@,
            deep(pairs@),
            old(narrowing).deep_view(),
        ),
{
    let ghost start = seq![
        CollectionSolutionV {
            substitution: initial@,
            constraints: Seq::empty(),
            fresh: Seq::empty(),
        },
    ];
    let ghost before = narrowing.deep_view();
    let mut solutions: Vec<CollectionSolution> = Vec::new();
    solutions.push(
        CollectionSolution { substitution: initial, constraints: Vec::new(), fresh: Vec::new() },
    );
    assert(deep(solutions@) =~= start);
    let mut i: usize = 0;
    while i < pairs.len()
        invariant
            i <= pairs.len(),
            before == old(narrowing).deep_view(),
            start == seq![
                CollectionSolutionV {
                    substitution: initial@,
                    constraints: Seq::empty(),
                    fresh: Seq::empty(),
                },
            ],
            collections_solved_from(mode, definition, deep(pairs@), start, before, 0)
                == collections_solved_from(
                mode,
                definition,
                deep(pairs@),
                deep(solutions@),
                narrowing.deep_view(),
                i as int,
            ),
        decreases pairs.len() - i,
    {
        assert(deep(pairs@)[i as int] == (pairs[i as int].0@, pairs[i as int].1@));
        match solve_each_collection(
            mode,
            definition,
            &pairs[i].0,
            &pairs[i].1,
            &solutions,
            narrowing,
        ) {
            Some(next) => {
                solutions = next;
            },
            None => {
                return None;
            },
        }
        i += 1;
    }
    let mut tidy: Vec<CollectionSolution> = Vec::new();
    let mut k: usize = 0;
    while k < solutions.len()
        invariant
            k <= solutions.len(),
            tidy.len() == k,
            forall|j: int| 0 <= j < k ==> (#[trigger] tidy[j])@ == tidied(solutions[j]@),
        decreases solutions.len() - k,
    {
        tidy.push(
            CollectionSolution {
                substitution: solutions[k].substitution.duplicate(),
                constraints: into_sorted(&solutions[k].constraints),
                fresh: solutions[k].fresh.duplicate(),
            },
        );
        k += 1;
    }
    assert(deep(tidy@) =~= Seq::new(
        deep(solutions@).len(),
        |i: int| tidied(deep(solutions@)[i]),
    ));
    Some(into_sorted(&tidy))
}

/// The substitutions of the solutions.
pub open spec fn solution_substitutions(solutions: Seq<CollectionSolutionV>) -> Seq<SubstitutionV> {
    Seq::new(solutions.len(), |i: int| solutions[i].substitution)
}

/// All substitutions under which the pairs left open match.
pub open spec fn remainders_matched<K: Kernel>(
    mode: MatchMode,
    definition: &BackendDefinition<K>,
    initial: SubstitutionV,
    remainder: Seq<(TermV, TermV)>,
) -> Option<Seq<SubstitutionV>> {
    match collections_solved(mode, definition, initial, remainder, None).0 {
        Some(solutions) => Some(solution_substitutions(solutions)),
        None => None,
    }
}

/// All complete matches of the pairs that a match left open.
///
/// A pair of sets or maps may have several solutions; the caller decides what they mean.
pub(crate) fn match_collection_remainders_all_in_definition<K: Kernel>(
    mode: MatchMode,
    definition: &BackendDefinition<K>,
    initial: Substitution,
    remainder: &Vec<(Term, Term)>,
) -> (result: Option<Vec<Substitution>>)
    ensures
        result.deep_view() == remainders_matched(mode, definition, initial@, deep(remainder@)),
{
    let mut narrowing: Option<Narrowing> = None;
    match solve_collection_pairs_in_definition(
        mode,
        definition,
        initial,
        remainder,
        &mut narrowing,
    ) {
        Some(solutions) => {
            let mut result: Vec<Substitution> = Vec::new();
            let mut i: usize = 0;
            while i < solutions.len()
                invariant
                    i <= solutions.len(),
                    result.len() == i,
                    forall|j: int| 0 <= j < i ==> (#[trigger] result[j])@ == solutions[j]@.substitution,
                decreases solutions.len() - i,
            {
                result.push(solutions[i].substitution.duplicate());
                i += 1;
            }
            assert(deep(result@) =~= solution_substitutions(deep(solutions@)));
            Some(result)
        },
        None => None,
    }
}

/// The solutions of pairs come in order, each once, and so do the constraints of each solution.
pub proof fn law_solutions_increase<K: Kernel>(
    mode: MatchMode,
    definition: &BackendDefinition<K>,
    initial: SubstitutionV,
    pairs: Seq<(TermV, TermV)>,
    narrowing: Option<NarrowingV>,
)
    ensures
        match collections_solved(mode, definition, initial, pairs, narrowing).0 {
            Some(solutions) => increasing::<CollectionSolution>(solutions) && forall|i: int|
                0 <= i < solutions.len() ==> increasing::<Predicate>(
                    (#[trigger] solutions[i]).constraints,
                ),
            None => true,
        },
{
    let start = CollectionSolutionV {
        substitution: initial,
        constraints: Seq::empty(),
        fresh: Seq::empty(),
    };
    if let Some(found) = collections_solved_from(
        mode,
        definition,
        pairs,
        seq![start],
        narrowing,
        0,
    ).0 {
        let tidy = Seq::new(found.len(), |i: int| tidied(found[i]));
        let solutions = sorted::<CollectionSolution>(tidy);
        law_sorted::<CollectionSolution>(tidy);
        assert forall|i: int| 0 <= i < solutions.len() implies increasing::<Predicate>(
            (#[trigger] solutions[i]).constraints,
        ) by {
            assert(solutions.contains(solutions[i]));
            assert(tidy.contains(solutions[i]));
            let j = choose|j: int| 0 <= j < tidy.len() && tidy[j] == solutions[i];
            law_sorted::<Predicate>(found[j].constraints);
        }
    }
}

/// No pairs have one solution: the substitution that is there.
pub proof fn law_no_pairs<K: Kernel>(
    mode: MatchMode,
    definition: &BackendDefinition<K>,
    initial: SubstitutionV,
    narrowing: Option<NarrowingV>,
)
    ensures
        collections_solved(mode, definition, initial, Seq::empty(), narrowing).0 == Some(
            seq![
                CollectionSolutionV {
                    substitution: initial,
                    constraints: Seq::empty(),
                    fresh: Seq::empty(),
                },
            ],
        ),
{
    let start = CollectionSolutionV {
        substitution: initial,
        constraints: Seq::empty(),
        fresh: Seq::empty(),
    };
    let tidy = Seq::new(1, |i: int| tidied(seq![start][i]));
    assert(tidied(start) == start);
    assert(tidy =~= seq![start]);
    reveal_with_fuel(extended_upto, 3);
    assert(sorted::<CollectionSolution>(tidy) =~= seq![start]);
}

} // verus!
