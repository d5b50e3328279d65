//! Search for the solutions of equations between maps and between sets.

use vstd::prelude::*;
use crate::collections::{
    solve_term_pair, term_pair_solved, CollectionSolution, CollectionSolutionV, Narrowing,
    NarrowingV, PairSolution, PairSolutionV,
};
use crate::construct::{map_term, set_term};
use crate::definition::BackendDefinition;
use crate::kernel::Kernel;
use crate::match_collections::{boxed_rest, lemma_optional_view};
use crate::matching::{is_variable, MatchMode};
use crate::model::{deep, duplicate_all, group_deep, Value};
use crate::names::{fresh_counter_for, fresh_from, fresh_variable, next_counter};
use crate::ops::{insert_sorted, inserted};
use crate::substitution::{substitute, substituted, Substitution, SubstitutionV};
use crate::term::{
    lemma_term_view, CollectionDefinition, CollectionDefinitionV, Sort, SortV, Term, TermV,
    Variable, VariableKind, VariableV,
};

verus! {

broadcast use {group_deep, lemma_optional_view};

/// The view of an [`Item`].
pub type ItemV = (TermV, Option<TermV>);

/// What a search has found so far.
#[derive(Debug, PartialEq, Eq)]
pub struct Search {
    pub narrowing: Option<Narrowing>,
    pub found: Vec<CollectionSolution>,
    /// Whether a solution may have been missed.
    pub indeterminate: bool,
}

/// The view of [`Search`].
pub struct SearchV {
    pub narrowing: Option<NarrowingV>,
    pub found: Seq<CollectionSolutionV>,
    pub indeterminate: bool,
}

impl View for Search {
    type V = SearchV;

    open spec fn view(&self) -> SearchV {
        SearchV {
            narrowing: self.narrowing.deep_view(),
            found: deep(self.found@),
            indeterminate: self.indeterminate,
        }
    }
}

impl DeepView for Search {
    type V = SearchV;

    open spec fn deep_view(&self) -> SearchV {
        self@
    }
}

impl Value for Search {
    fn duplicate(&self) -> (copy: Self) {
        Search {
            narrowing: self.narrowing.duplicate(),
            found: self.found.duplicate(),
            indeterminate: self.indeterminate,
        }
    }

    fn equals(&self, other: &Self) -> (same: bool) {
        self.narrowing.equals(&other.narrowing)
            && self.found.equals(&other.found)
            && self.indeterminate == other.indeterminate
    }
}

/// An equation between two maps, or two sets: the items and the rest of the pattern, and the rest
/// of the subject. The items of the subject are an argument of the search.
pub struct CollectionProblem<'a, K: Kernel> {
    pub mode: MatchMode,
    pub backend: &'a BackendDefinition<K>,
    pub definition: CollectionDefinition,
    pub is_map: bool,
    pub items: Vec<(Term, Option<Term>)>,
    pub rest: Option<Term>,
    pub subject_rest: Option<Term>,
}

/// The view of a [`CollectionProblem`].
pub struct CollectionProblemV<'a, K: Kernel> {
    pub mode: MatchMode,
    pub backend: &'a BackendDefinition<K>,
    pub definition: CollectionDefinitionV,
    pub is_map: bool,
    pub items: Seq<ItemV>,
    pub rest: Option<TermV>,
    pub subject_rest: Option<TermV>,
}

impl<'a, K: Kernel> View for CollectionProblem<'a, K> {
    type V = CollectionProblemV<'a, K>;

    open spec fn view(&self) -> CollectionProblemV<'a, K> {
        CollectionProblemV {
            mode: self.mode,
            backend: self.backend,
            definition: self.definition@,
            is_map: self.is_map,
            items: deep(self.items@),
            rest: self.rest.deep_view(),
            subject_rest: self.subject_rest.deep_view(),
        }
    }
}

/// The value of an item.
pub open spec fn item_value(item: ItemV) -> TermV {
    match item.1 {
        Some(value) => value,
        None => item.0,
    }
}

/// The items as entries of a map.
pub open spec fn items_as_entries(items: Seq<ItemV>) -> Seq<(TermV, TermV)> {
    Seq::new(items.len(), |i: int| (items[i].0, item_value(items[i])))
}

/// The items as elements of a set.
pub open spec fn items_as_elements(items: Seq<ItemV>) -> Seq<TermV> {
    Seq::new(items.len(), |i: int| items[i].0)
}

/// The entries of a map as items.
pub open spec fn entries_as_items(entries: Seq<(TermV, TermV)>) -> Seq<ItemV> {
    Seq::new(entries.len(), |i: int| (entries[i].0, Some(entries[i].1)))
}

/// The elements of a set as items.
pub open spec fn elements_as_items(elements: Seq<TermV>) -> Seq<ItemV> {
    Seq::new(elements.len(), |i: int| (elements[i], None::<TermV>))
}

/// The collection of `items` and `rest`.
pub open spec fn collection_of(
    definition: CollectionDefinitionV,
    is_map: bool,
    items: Seq<ItemV>,
    rest: Option<TermV>,
) -> TermV {
    if is_map {
        map_term(definition, items_as_entries(items), boxed_rest(rest))
    } else {
        set_term(definition, items_as_elements(items), boxed_rest(rest))
    }
}

/// The items with `substitution` applied.
pub open spec fn items_substituted(items: Seq<ItemV>, substitution: SubstitutionV) -> Seq<ItemV> {
    Seq::new(
        items.len(),
        |i: int|
            (
                substituted(items[i].0, substitution),
                match items[i].1 {
                    Some(value) => Some(substituted(value, substitution)),
                    None => None,
                },
            ),
    )
}

/// What solving an item of the pattern with one of the subject makes of `solution`.
pub open spec fn item_solved<'a, K: Kernel>(
    problem: CollectionProblemV<'a, K>,
    solution: CollectionSolutionV,
    item: ItemV,
    subject: ItemV,
    narrow: bool,
) -> PairSolutionV {
    match term_pair_solved(
        problem.mode,
        *problem.backend,
        solution,
        item.0,
        subject.0,
        narrow,
    ) {
        PairSolutionV::Solved(solution) => if item.1 is Some && subject.1 is Some {
            term_pair_solved(
                problem.mode,
                *problem.backend,
                solution,
                item.1->0,
                subject.1->0,
                narrow,
            )
        } else {
            PairSolutionV::Solved(solution)
        },
        other => other,
    }
}

/// `search` with one more outcome.
pub open spec fn recorded(search: SearchV, outcome: PairSolutionV) -> SearchV {
    match outcome {
        PairSolutionV::Solved(solution) => SearchV { found: search.found.push(solution), ..search },
        PairSolutionV::NoSolution => search,
        PairSolutionV::Indeterminate => SearchV { indeterminate: true, ..search },
    }
}

/// The variable from which fresh rests are made.
pub open spec fn frame_seed(sort: SortV) -> VariableV {
    VariableV { name: "Ex#Frame"@, sort, kind: VariableKind::Element }
}

/// `narrowing` after a fresh rest of sort `sort` was made.
pub open spec fn narrowed(narrowing: NarrowingV, sort: SortV) -> NarrowingV {
    NarrowingV {
        avoided: narrowing.avoided.push(
            fresh_from(frame_seed(sort), narrowing.avoided, narrowing.counter).name,
        ),
        counter: next_counter(
            fresh_counter_for("Ex#Frame"@, narrowing.avoided, narrowing.counter),
        ),
    }
}

/// What is found when the pattern's items are used up: `remaining` are the subject's items without
/// a counterpart, `frame` the pattern's items that the subject's rest has to hold.
pub open spec fn finished<'a, K: Kernel>(
    problem: CollectionProblemV<'a, K>,
    remaining: Seq<ItemV>,
    frame: Seq<ItemV>,
    solution: CollectionSolutionV,
    search: SearchV,
) -> SearchV {
    let unknown = SearchV { indeterminate: true, ..search };
    if frame.len() == 0 {
        match (problem.rest, problem.subject_rest) {
            (Some(rest), _) => recorded(
                search,
                term_pair_solved(
                    problem.mode,
                    *problem.backend,
                    solution,
                    rest,
                    collection_of(
                        problem.definition,
                        problem.is_map,
                        remaining,
                        problem.subject_rest,
                    ),
                    search.narrowing is Some,
                ),
            ),
            (None, None) => if remaining.len() == 0 {
                recorded(search, PairSolutionV::Solved(solution))
            } else {
                search
            },
            (None, Some(subject_rest)) => if search.narrowing is None || !(
            subject_rest is Variable) {
                unknown
            } else if remaining.len() > 0 {
                search
            } else {
                recorded(
                    search,
                    term_pair_solved(
                        problem.mode,
                        *problem.backend,
                        solution,
                        subject_rest,
                        collection_of(problem.definition, problem.is_map, Seq::empty(), None),
                        true,
                    ),
                )
            },
        }
    } else {
        let held = items_substituted(frame, solution.substitution);
        match (problem.subject_rest, problem.rest) {
            (None, _) => search,
            (Some(subject_rest), None) => if !(subject_rest is Variable) {
                unknown
            } else if remaining.len() > 0 {
                search
            } else {
                recorded(
                    search,
                    term_pair_solved(
                        problem.mode,
                        *problem.backend,
                        solution,
                        subject_rest,
                        collection_of(problem.definition, problem.is_map, held, None),
                        true,
                    ),
                )
            },
            (Some(subject_rest), Some(rest)) => if !(subject_rest is Variable)
                || search.narrowing is None {
                unknown
            } else {
                let narrowing = search.narrowing->0;
                let sort = subject_rest->Variable_0.sort;
                let fresh = fresh_from(frame_seed(sort), narrowing.avoided, narrowing.counter);
                let search = SearchV { narrowing: Some(narrowed(narrowing, sort)), ..search };
                match term_pair_solved(
                    problem.mode,
                    *problem.backend,
                    solution,
                    subject_rest,
                    collection_of(
                        problem.definition,
                        problem.is_map,
                        held,
                        Some(TermV::Variable(fresh)),
                    ),
                    true,
                ) {
                    PairSolutionV::Solved(solution) => recorded(
                        search,
                        term_pair_solved(
                            problem.mode,
                            *problem.backend,
                            CollectionSolutionV {
                                fresh: inserted::<Variable>(solution.fresh, fresh),
                                ..solution
                            },
                            rest,
                            collection_of(
                                problem.definition,
                                problem.is_map,
                                remaining,
                                Some(TermV::Variable(fresh)),
                            ),
                            true,
                        ),
                    ),
                    PairSolutionV::NoSolution => search,
                    PairSolutionV::Indeterminate => SearchV { indeterminate: true, ..search },
                }
            },
        }
    }
}

/// What is found with the pattern's items from `index` on.
pub open spec fn searched<'a, K: Kernel>(
    problem: CollectionProblemV<'a, K>,
    index: int,
    remaining: Seq<ItemV>,
    frame: Seq<ItemV>,
    solution: CollectionSolutionV,
    search: SearchV,
) -> SearchV
    decreases problem.items.len() - index, 1int, 0int,
{
    if index >= problem.items.len() {
        finished(problem, remaining, frame, solution, search)
    } else {
        let search = searched_candidates(problem, index, remaining, frame, solution, search, 0);
        match problem.subject_rest {
            Some(subject_rest) => if search.narrowing is Some && subject_rest is Variable {
                searched(
                    problem,
                    index + 1,
                    remaining,
                    frame.push(problem.items[index]),
                    solution,
                    search,
                )
            } else {
                SearchV { indeterminate: true, ..search }
            },
            None => search,
        }
    }
}

/// What is found where the pattern's item at `index` is one of the subject's items from `from` on.
pub open spec fn searched_candidates<'a, K: Kernel>(
    problem: CollectionProblemV<'a, K>,
    index: int,
    remaining: Seq<ItemV>,
    frame: Seq<ItemV>,
    solution: CollectionSolutionV,
    search: SearchV,
    from: int,
) -> SearchV
    decreases problem.items.len() - index, 0int, remaining.len() - from,
{
    if from >= remaining.len() || index >= problem.items.len() {
        search
    } else {
        let next = match item_solved(
            problem,
            solution,
            problem.items[index],
            remaining[from],
            search.narrowing is Some,
        ) {
            PairSolutionV::Solved(found) => searched(
                problem,
                index + 1,
                remaining.remove(from),
                frame,
                found,
                search,
            ),
            PairSolutionV::NoSolution => search,
            PairSolutionV::Indeterminate => SearchV { indeterminate: true, ..search },
        };
        searched_candidates(problem, index, remaining, frame, solution, next, from + 1)
    }
}

fn make_collection(
    definition: &CollectionDefinition,
    is_map: bool,
    items: &Vec<(Term, Option<Term>)>,
    rest: Option<Term>,
) -> (result: Term)
    ensures
        result@ == collection_of(definition@, is_map, deep(items@), rest.deep_view()),
{
    if is_map {
        let mut entries: Vec<(Term, Term)> = Vec::new();
        let mut i: usize = 0;
        while i < items.len()
            invariant
                i <= items.len(),
                entries.len() == i,
                forall|j: int|
                    0 <= j < i ==> (#[trigger] entries[j]).0@ == deep(items@)[j].0 && entries[j].1@
                        == item_value(deep(items@)[j]),
            decreases items.len() - i,
        {
            let value = match &items[i].1 {
                Some(value) => value.duplicate(),
                None => items[i].0.duplicate(),
            };
            entries.push((items[i].0.duplicate(), value));
            i += 1;
        }
        assert(deep(entries@) =~= items_as_entries(deep(items@)));
        Term::map(definition.duplicate(), entries, rest)
    } else {
        let mut elements: Vec<Term> = Vec::new();
        let mut i: usize = 0;
        while i < items.len()
            invariant
                i <= items.len(),
                elements.len() == i,
                forall|j: int| 0 <= j < i ==> (#[trigger] elements[j])@ == deep(items@)[j].0,
            decreases items.len() - i,
        {
            elements.push(items[i].0.duplicate());
            i += 1;
        }
        assert(deep(elements@) =~= items_as_elements(deep(items@)));
        Term::set(definition.duplicate(), elements, rest)
    }
}

fn substitute_items(items: &Vec<(Term, Option<Term>)>, substitution: &Substitution) -> (result: Vec<
    (Term, Option<Term>),
>)
    ensures
        deep(result@) == items_substituted(deep(items@), substitution@),
{
    let mut result: Vec<(Term, Option<Term>)> = Vec::new();
    let mut i: usize = 0;
    while i < items.len()
        invariant
            i <= items.len(),
            result.len() == i,
            forall|j: int|
                0 <= j < i ==> (#[trigger] result[j]).deep_view() == items_substituted(
                    deep(items@),
                    substitution@,
                )[j],
        decreases items.len() - i,
    {
        let value = match &items[i].1 {
            Some(value) => Some(substitute(value, substitution)),
            None => None,
        };
        result.push((substitute(&items[i].0, substitution), value));
        i += 1;
    }
    assert(deep(result@) =~= items_substituted(deep(items@), substitution@));
    result
}

impl Search {
    fn record(&mut self, outcome: PairSolution)
        ensures
            final(self)@ == recorded(old(self)@, outcome@),
    {
        match outcome {
            PairSolution::Solved(solution) => {
                self.found.push(solution);
            },
            PairSolution::NoSolution => {},
            PairSolution::Indeterminate => {
                self.indeterminate = true;
            },
        }
    }
}

impl Narrowing {
    /// Make a fresh variable of a collection's sort.
    pub fn fresh_frame(&mut self, sort: &Sort) -> (fresh: Variable)
        ensures
            fresh@ == fresh_from(frame_seed(sort@), old(self)@.avoided, old(self)@.counter),
            final(self)@ == narrowed(old(self)@, sort@),
    {
        let seed = Variable::new("Ex#Frame", sort.duplicate());
        fresh_variable(&seed, &mut self.avoided, &mut self.counter)
    }
}

impl<'a, K: Kernel> CollectionProblem<'a, K> {
    fn solve_item(
        &self,
        solution: CollectionSolution,
        item: &(Term, Option<Term>),
        subject: &(Term, Option<Term>),
        narrow: bool,
    ) -> (result: PairSolution)
        ensures
            result@ == item_solved(
                self@,
                solution@,
                item.deep_view(),
                subject.deep_view(),
                narrow,
            ),
    {
        match solve_term_pair(self.mode, self.backend, solution, &item.0, &subject.0, narrow) {
            PairSolution::Solved(solution) => match (&item.1, &subject.1) {
                (Some(value), Some(other)) => solve_term_pair(
                    self.mode,
                    self.backend,
                    solution,
                    value,
                    other,
                    narrow,
                ),
                _ => PairSolution::Solved(solution),
            },
            PairSolution::NoSolution => PairSolution::NoSolution,
            PairSolution::Indeterminate => PairSolution::Indeterminate,
        }
    }

    fn finish_closed(
        &self,
        remaining: &Vec<(Term, Option<Term>)>,
        solution: CollectionSolution,
        search: &mut Search,
    )
        ensures
            final(search)@ == finished(
                self@,
                deep(remaining@),
                Seq::empty(),
                solution@,
                old(search)@,
            ),
    {
        let narrow: bool = search.narrowing.is_some();
        match (&self.rest, &self.subject_rest) {
            (Some(rest), _) => {
                let subject = make_collection(
                    &self.definition,
                    self.is_map,
                    remaining,
                    self.subject_rest.duplicate(),
                );
                search.record(
                    solve_term_pair(self.mode, self.backend, solution, rest, &subject, narrow),
                );
            },
            (None, None) => {
                if remaining.len() == 0 {
                    search.record(PairSolution::Solved(solution));
                }
            },
            (None, Some(subject_rest)) => {
                if !narrow || !is_variable(subject_rest) {
                    search.indeterminate = true;
                } else if remaining.len() == 0 {
                    let empty = make_collection(&self.definition, self.is_map, &Vec::new(), None);
                    search.record(
                        solve_term_pair(
                            self.mode,
                            self.backend,
                            solution,
                            subject_rest,
                            &empty,
                            true,
                        ),
                    );
                }
            },
        }
    }

    fn finish_open(
        &self,
        remaining: &Vec<(Term, Option<Term>)>,
        frame: &Vec<(Term, Option<Term>)>,
        solution: CollectionSolution,
        search: &mut Search,
    )
        requires
            frame.len() > 0,
        ensures
            final(search)@ == finished(
                self@,
                deep(remaining@),
                deep(frame@),
                solution@,
                old(search)@,
            ),
    {
        let held = substitute_items(frame, &solution.substitution);
        match (&self.subject_rest, &self.rest) {
            (None, _) => {},
            (Some(subject_rest), None) => {
                if !is_variable(subject_rest) {
                    search.indeterminate = true;
                } else if remaining.len() == 0 {
                    let value = make_collection(&self.definition, self.is_map, &held, None);
                    search.record(
                        solve_term_pair(
                            self.mode,
                            self.backend,
                            solution,
                            subject_rest,
                            &value,
                            true,
                        ),
                    );
                }
            },
            (Some(subject_rest), Some(rest)) => {
                proof {
                    lemma_term_view(*subject_rest);
                }
                let narrowing = search.narrowing.take();
                match (subject_rest, narrowing) {
                    (Term::Variable(variable), Some(narrowing)) => {
                        let mut narrowing = narrowing;
                        let fresh = narrowing.fresh_frame(&variable.sort);
                        search.narrowing = Some(narrowing);
                        let assigned = make_collection(
                            &self.definition,
                            self.is_map,
                            &held,
                            Some(Term::variable(fresh.duplicate())),
                        );
                        match solve_term_pair(
                            self.mode,
                            self.backend,
                            solution,
                            subject_rest,
                            &assigned,
                            true,
                        ) {
                            PairSolution::Solved(solution) => {
                                let mut solution = solution;
                                insert_sorted(&mut solution.fresh, fresh.duplicate());
                                let left = make_collection(
                                    &self.definition,
                                    self.is_map,
                                    remaining,
                                    Some(Term::variable(fresh)),
                                );
                                search.record(
                                    solve_term_pair(
                                        self.mode,
                                        self.backend,
                                        solution,
                                        rest,
                                        &left,
                                        true,
                                    ),
                                );
                            },
                            PairSolution::NoSolution => {},
                            PairSolution::Indeterminate => {
                                search.indeterminate = true;
                            },
                        }
                    },
                    (_, narrowing) => {
                        search.narrowing = narrowing;
                        search.indeterminate = true;
                    },
                }
            },
        }
    }

    fn finish(
        &self,
        remaining: &Vec<(Term, Option<Term>)>,
        frame: &Vec<(Term, Option<Term>)>,
        solution: CollectionSolution,
        search: &mut Search,
    )
        ensures
            final(search)@ == finished(
                self@,
                deep(remaining@),
                deep(frame@),
                solution@,
                old(search)@,
            ),
    {
        if frame.len() == 0 {
            assert(deep(frame@) =~= Seq::<ItemV>::empty());
            self.finish_closed(remaining, solution, search);
        } else {
            self.finish_open(remaining, frame, solution, search);
        }
    }

    pub(crate) fn search(
        &self,
        index: usize,
        remaining: &Vec<(Term, Option<Term>)>,
        frame: &Vec<(Term, Option<Term>)>,
        solution: CollectionSolution,
        search: &mut Search,
    )
        requires
            index <= self.items.len(),
        ensures
            final(search)@ == searched(
                self@,
                index as int,
                deep(remaining@),
                deep(frame@),
                solution@,
                old(search)@,
            ),
        decreases self.items.len() - index,
    {
        if index == self.items.len() {
            self.finish(remaining, frame, solution, search);
            return ;
        }
        let ghost before = search@;
        assert(self@.items[index as int] == self.items[index as int].deep_view());
        let mut i: usize = 0;
        while i < remaining.len()
            invariant
                i <= remaining.len(),
                index < self.items.len(),
                self@.items[index as int] == self.items[index as int].deep_view(),
                searched_candidates(
                    self@,
                    index as int,
                    deep(remaining@),
                    deep(frame@),
                    solution@,
                    before,
                    0,
                ) == searched_candidates(
                    self@,
                    index as int,
                    deep(remaining@),
                    deep(frame@),
                    solution@,
                    search@,
                    i as int,
                ),
            decreases remaining.len() - i,
        {
            assert(deep(remaining@)[i as int] == remaining[i as int].deep_view());
            let narrow: bool = search.narrowing.is_some();
            match self.solve_item(
                solution.duplicate(),
                &self.items[index],
                &remaining[i],
                narrow,
            ) {
                PairSolution::Solved(found) => {
                    let mut left = duplicate_all(remaining);
                    let ghost copied = left@;
                    left.remove(i);
                    assert(deep(left@) =~= deep(remaining@).remove(i as int)) by {
                        assert(deep(left@) =~= deep(copied).remove(i as int));
                    }
                    self.search(index + 1, &left, frame, found, search);
                },
                PairSolution::NoSolution => {},
                PairSolution::Indeterminate => {
                    search.indeterminate = true;
                },
            }
            i += 1;
        }
        match &self.subject_rest {
            Some(subject_rest) => {
                if search.narrowing.is_some() && is_variable(subject_rest) {
                    let mut frame = duplicate_all(frame);
                    frame.push(self.items[index].duplicate());
                    self.search(index + 1, remaining, &frame, solution, search);
                } else {
                    search.indeterminate = true;
                }
            },
            None => {},
        }
    }
}

} // verus!
