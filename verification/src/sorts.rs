//! The order on sorts, and overloaded symbols.

use vstd::prelude::*;
use crate::assoc::{assoc, assoc_bound, assoc_get, assoc_insert, law_bound};
use crate::kernel::result_view;
use crate::model::{contains, deep, group_deep, Value};
use crate::ops::{insert_sorted, inserted, into_sorted, sorted};
use crate::order::{law_inserted, law_sorted, lemma_push_contains};
use crate::term::{lemma_sort_view, Sort, SortV};

verus! {

broadcast use group_deep;

/// Why two sorts cannot be compared.
#[derive(Debug, PartialEq, Eq)]
pub enum SortError {
    FoundSortVariable(String),
    FoundUnknownSort(Sort),
}

/// The view of [`SortError`].
pub enum SortErrorV {
    FoundSortVariable(Seq<char>),
    FoundUnknownSort(SortV),
}

impl View for SortError {
    type V = SortErrorV;

    open spec fn view(&self) -> SortErrorV {
        match self {
            SortError::FoundSortVariable(first) => SortErrorV::FoundSortVariable(first@),
            SortError::FoundUnknownSort(first) => SortErrorV::FoundUnknownSort(first@),
        }
    }
}

impl DeepView for SortError {
    type V = SortErrorV;

    open spec fn deep_view(&self) -> SortErrorV {
        self@
    }
}

impl Value for SortError {
    fn duplicate(&self) -> (copy: Self) {
        match self {
            SortError::FoundSortVariable(first) => SortError::FoundSortVariable(first.clone()),
            SortError::FoundUnknownSort(first) => SortError::FoundUnknownSort(first.duplicate()),
        }
    }

    fn equals(&self, other: &Self) -> (same: bool) {
        match (self, other) {
            (
                SortError::FoundSortVariable(first),
                SortError::FoundSortVariable(other_first),
            ) => *first == *other_first,
            (
                SortError::FoundUnknownSort(first),
                SortError::FoundUnknownSort(other_first),
            ) => first.equals(other_first),
            _ => false,
        }
    }
}

/// For each sort constructor, by name, the names of its subsorts, itself among them.
#[derive(Debug, PartialEq, Eq)]
pub struct SortGraph {
    pub subsorts: Vec<(String, Vec<String>)>,
}

/// The view of a [`SortGraph`].
pub type SortGraphV = Seq<(Seq<char>, Seq<Seq<char>>)>;

impl View for SortGraph {
    type V = SortGraphV;

    open spec fn view(&self) -> SortGraphV {
        deep(self.subsorts@)
    }
}

impl DeepView for SortGraph {
    type V = SortGraphV;

    open spec fn deep_view(&self) -> SortGraphV {
        self@
    }
}

/// The outcome of comparing two sorts: whether the first is a subsort of the second.
///
/// Equal sorts are always comparable. Otherwise a sort parameter, or a supersort that the graph
/// does not know, makes the comparison fail; the arguments are compared from left to right.
pub open spec fn subsort(graph: SortGraphV, sub: SortV, sup: SortV) -> Result<bool, SortErrorV>
    decreases sub, 1int,
{
    if sub == sup {
        Ok(true)
    } else {
        match (sub, sup) {
            (SortV::Variable(name), _) => Err(SortErrorV::FoundSortVariable(name)),
            (_, SortV::Variable(name)) => Err(SortErrorV::FoundSortVariable(name)),
            (
                SortV::Application { name: sub_name, arguments: sub_arguments },
                SortV::Application { name: sup_name, arguments: sup_arguments },
            ) => match assoc(graph, sup_name) {
                None => Err(SortErrorV::FoundUnknownSort(sup)),
                Some(subsorts) => if !subsorts.contains(sub_name) || sub_arguments.len()
                    != sup_arguments.len() {
                    Ok(false)
                } else {
                    subsorts_from(graph, sub_arguments, sup_arguments, 0)
                },
            },
        }
    }
}

/// The comparison of the arguments from `from` on.
pub open spec fn subsorts_from(
    graph: SortGraphV,
    subs: Seq<SortV>,
    sups: Seq<SortV>,
    from: int,
) -> Result<bool, SortErrorV>
    decreases subs, subs.len() - from,
{
    if 0 <= from < subs.len() {
        match subsort(graph, subs[from], sups[from]) {
            Ok(true) => subsorts_from(graph, subs, sups, from + 1),
            other => other,
        }
    } else {
        Ok(true)
    }
}

/// Whether the first sort is known to be a subsort of the second.
pub open spec fn is_subsort(graph: SortGraphV, sub: SortV, sup: SortV) -> bool {
    subsort(graph, sub, sup) == Ok::<bool, SortErrorV>(true)
}

/// Whether two sets of names have no name in common.
pub open spec fn disjoint(left: Seq<Seq<char>>, right: Seq<Seq<char>>) -> bool {
    forall|i: int| 0 <= i < left.len() ==> !right.contains(#[trigger] left[i])
}

/// Whether two sorts share a subsort, where that is known.
pub open spec fn known_overlap(graph: SortGraphV, left: SortV, right: SortV) -> Option<bool> {
    match (subsort_names(graph, left), subsort_names(graph, right)) {
        (Some(left), Some(right)) => Some(!disjoint(left, right)),
        _ => None,
    }
}

/// Whether two sorts may share a subsort.
pub open spec fn overlap(graph: SortGraphV, left: SortV, right: SortV) -> bool {
    known_overlap(graph, left, right) != Some(false)
}

/// The subsorts of a sort without arguments.
pub open spec fn subsort_names(graph: SortGraphV, sort: SortV) -> Option<Seq<Seq<char>>> {
    match sort {
        SortV::Application { name, arguments } => if arguments.len() == 0 {
            assoc(graph, name)
        } else {
            None
        },
        SortV::Variable(_) => None,
    }
}

/// Whether two sets of names have no name in common.
pub fn are_disjoint(left: &Vec<String>, right: &Vec<String>) -> (result: bool)
    ensures
        result == disjoint(deep(left@), deep(right@)),
{
    let mut i: usize = 0;
    while i < left.len()
        invariant
            i <= left.len(),
            forall|j: int| 0 <= j < i ==> !deep(right@).contains(#[trigger] deep(left@)[j]),
        decreases left.len() - i,
    {
        assert(deep(left@)[i as int] == left[i as int]@);
        if contains(right, &left[i]) {
            return false;
        }
        i += 1;
    }
    true
}

impl SortGraph {
    /// A graph without entries.
    pub fn new() -> (graph: Self)
        ensures
            graph@ == SortGraphV::empty(),
    {
        SortGraph { subsorts: Vec::new() }
    }

    /// Make `subsorts` and the sort itself the subsorts of `supersort`.
    pub fn insert(&mut self, supersort: &str, subsorts: Vec<String>)
        ensures
            final(self)@ == with_subsorts(old(self)@, supersort@, deep(subsorts@)),
    {
        let mut closure = into_sorted(&subsorts);
        insert_sorted(&mut closure, supersort.to_owned());
        assoc_insert(&mut self.subsorts, supersort.to_owned(), closure);
    }

    /// Whether `sub` is a subsort of `sup`.
    pub fn check_subsort(&self, sub: &Sort, sup: &Sort) -> (result: Result<bool, SortError>)
        ensures
            result_view(result) == subsort(self@, sub@, sup@),
        decreases sub,
    {
        proof {
            lemma_sort_view(*sub);
            lemma_sort_view(*sup);
        }
        if sub.equals(sup) {
            return Ok(true);
        }
        match (sub, sup) {
            (Sort::Variable(name), _) => Err(SortError::FoundSortVariable(name.clone())),
            (_, Sort::Variable(name)) => Err(SortError::FoundSortVariable(name.clone())),
            (
                Sort::Application { name: sub_name, arguments: sub_arguments },
                Sort::Application { name: sup_name, arguments: sup_arguments },
            ) => match assoc_get(&self.subsorts, sup_name) {
                None => Err(SortError::FoundUnknownSort(sup.duplicate())),
                Some(subsorts) => if !contains(subsorts, sub_name) || sub_arguments.len()
                    != sup_arguments.len() {
                    Ok(false)
                } else {
                    self.check_subsorts(sub_arguments, sup_arguments)
                },
            },
        }
    }

    fn check_subsorts(&self, subs: &Vec<Sort>, sups: &Vec<Sort>) -> (result: Result<
        bool,
        SortError,
    >)
        requires
            subs.len() == sups.len(),
        ensures
            result_view(result) == subsorts_from(self@, deep(subs@), deep(sups@), 0),
        decreases subs,
    {
        let mut i: usize = 0;
        while i < subs.len()
            invariant
                i <= subs.len(),
                subs.len() == sups.len(),
                subsorts_from(self@, deep(subs@), deep(sups@), 0) == subsorts_from(
                    self@,
                    deep(subs@),
                    deep(sups@),
                    i as int,
                ),
            decreases subs.len() - i,
        {
            assert(deep(subs@)[i as int] == subs[i as int]@);
            assert(deep(sups@)[i as int] == sups[i as int]@);
            match self.check_subsort(&subs[i], &sups[i]) {
                Ok(true) => {},
                other => {
                    return other;
                },
            }
            i += 1;
        }
        Ok(true)
    }

    /// Whether `sub` is known to be a subsort of `sup`.
    pub fn is_subsort(&self, sub: &Sort, sup: &Sort) -> (result: bool)
        ensures
            result == is_subsort(self@, sub@, sup@),
    {
        match self.check_subsort(sub, sup) {
            Ok(result) => result,
            Err(_) => false,
        }
    }

    /// The subsorts of a sort without arguments.
    pub(crate) fn subsorts_of(&self, sort: &Sort) -> (result: Option<&Vec<String>>)
        ensures
            result.deep_view() == subsort_names(self@, sort@),
    {
        proof {
            lemma_sort_view(*sort);
        }
        match sort {
            Sort::Application { name, arguments } => {
                if arguments.len() == 0 {
                    assoc_get(&self.subsorts, name)
                } else {
                    None
                }
            },
            Sort::Variable(_) => None,
        }
    }

    /// Whether the sorts share a subsort, where that is known.
    pub(crate) fn known_overlap(&self, left: &Sort, right: &Sort) -> (result: Option<bool>)
        ensures
            result == known_overlap(self@, left@, right@),
    {
        match (self.subsorts_of(left), self.subsorts_of(right)) {
            (Some(left), Some(right)) => Some(!are_disjoint(left, right)),
            _ => None,
        }
    }

    /// Whether the sorts may share a subsort.
    pub(crate) fn overlap(&self, left: &Sort, right: &Sort) -> (result: bool)
        ensures
            result == overlap(self@, left@, right@),
    {
        match self.known_overlap(left, right) {
            Some(known) => known,
            None => true,
        }
    }
}

/// Every sort is a subsort of itself.
pub proof fn law_subsort_reflexive(graph: SortGraphV, sort: SortV)
    ensures
        subsort(graph, sort, sort) == Ok::<bool, SortErrorV>(true),
{
}

/// Whether the subsorts of each sort hold the subsorts of each of them.
pub open spec fn closed(graph: SortGraphV) -> bool {
    forall|lower: Seq<char>, middle: Seq<char>, upper: Seq<char>| #[trigger]
        below(graph, lower, middle) && #[trigger] below(graph, middle, upper) ==> below(
            graph,
            lower,
            upper,
        )
}

/// Whether `lower` is among the subsorts of `upper`.
pub open spec fn below(graph: SortGraphV, lower: Seq<char>, upper: Seq<char>) -> bool {
    match assoc(graph, upper) {
        Some(names) => names.contains(lower),
        None => false,
    }
}

/// In a graph that is transitively closed, a subsort of a subsort is a subsort.
pub proof fn law_subsort_transitive(
    graph: SortGraphV,
    lower: SortV,
    middle: SortV,
    upper: SortV,
)
    requires
        closed(graph),
        is_subsort(graph, lower, middle),
        is_subsort(graph, middle, upper),
    ensures
        is_subsort(graph, lower, upper),
    decreases lower, 1int,
{
    if lower != middle && middle != upper && lower != upper {
        match (lower, middle, upper) {
            (
                SortV::Application { name: lower_name, arguments: lowers },
                SortV::Application { name: middle_name, arguments: middles },
                SortV::Application { name: upper_name, arguments: uppers },
            ) => {
                assert(below(graph, lower_name, middle_name));
                assert(below(graph, middle_name, upper_name));
                assert(below(graph, lower_name, upper_name));
                lemma_subsorts_transitive(graph, lowers, middles, uppers, 0);
            },
            _ => {},
        }
    }
}

proof fn lemma_subsorts_transitive(
    graph: SortGraphV,
    lowers: Seq<SortV>,
    middles: Seq<SortV>,
    uppers: Seq<SortV>,
    from: int,
)
    requires
        closed(graph),
        lowers.len() == middles.len() == uppers.len(),
        0 <= from <= lowers.len(),
        subsorts_from(graph, lowers, middles, from) == Ok::<bool, SortErrorV>(true),
        subsorts_from(graph, middles, uppers, from) == Ok::<bool, SortErrorV>(true),
    ensures
        subsorts_from(graph, lowers, uppers, from) == Ok::<bool, SortErrorV>(true),
    decreases lowers, lowers.len() - from,
{
    if from < lowers.len() {
        law_subsort_transitive(graph, lowers[from], middles[from], uppers[from]);
        lemma_subsorts_transitive(graph, lowers, middles, uppers, from + 1);
    }
}

/// The graph that [`SortGraph::insert`] leaves.
pub open spec fn with_subsorts(
    graph: SortGraphV,
    supersort: Seq<char>,
    subsorts: Seq<Seq<char>>,
) -> SortGraphV {
    assoc_bound::<String, Seq<Seq<char>>>(
        graph,
        supersort,
        inserted::<String>(sorted::<String>(subsorts), supersort),
    )
}

/// Behind an insertion the subsorts of the sort are those given and the sort itself, whatever
/// they were, and those of each other sort are as before.
pub proof fn law_inserted_subsorts(
    graph: SortGraphV,
    supersort: Seq<char>,
    subsorts: Seq<Seq<char>>,
    name: Seq<char>,
    other: Seq<char>,
)
    ensures
        below(with_subsorts(graph, supersort, subsorts), name, supersort) <==> name == supersort
            || subsorts.contains(name),
        other != supersort ==> assoc(with_subsorts(graph, supersort, subsorts), other) == assoc(
            graph,
            other,
        ),
{
    let names = sorted::<String>(subsorts);
    law_sorted::<String>(subsorts);
    law_inserted::<String>(names, supersort);
    lemma_push_contains(names, supersort, name);
    law_bound::<String, Seq<Seq<char>>>(
        graph,
        supersort,
        inserted::<String>(names, supersort),
        supersort,
    );
    law_bound::<String, Seq<Seq<char>>>(
        graph,
        supersort,
        inserted::<String>(names, supersort),
        other,
    );
}

// ---------------------------------------------------------------------------------------------
// Overloads
// ---------------------------------------------------------------------------------------------
/// For each symbol that overloads others, by name, the names of those that it overloads.
#[derive(Debug, PartialEq, Eq)]
pub struct OverloadGraph {
    pub overloads: Vec<(String, Vec<String>)>,
}

/// The view of an [`OverloadGraph`].
pub type OverloadGraphV = Seq<(Seq<char>, Seq<Seq<char>>)>;

impl View for OverloadGraph {
    type V = OverloadGraphV;

    open spec fn view(&self) -> OverloadGraphV {
        deep(self.overloads@)
    }
}

/// The symbols that `name` overloads.
pub open spec fn overloaded_by(graph: OverloadGraphV, name: Seq<char>) -> Seq<Seq<char>> {
    match assoc(graph, name) {
        Some(names) => names,
        None => Seq::empty(),
    }
}

/// Whether `upper` overloads `lower`.
pub open spec fn overloading(
    graph: OverloadGraphV,
    upper: Seq<char>,
    lower: Seq<char>,
) -> bool {
    overloaded_by(graph, upper).contains(lower)
}

/// Whether `name` takes part in an overload.
pub open spec fn overloaded(graph: OverloadGraphV, name: Seq<char>) -> bool {
    exists|i: int|
        0 <= i < graph.len() && ((#[trigger] graph[i]).0 == name || graph[i].1.contains(name))
}

/// The first `count` symbols of the graph that overload both `left` and `right`.
pub open spec fn common_upto(
    graph: OverloadGraphV,
    left: Seq<char>,
    right: Seq<char>,
    count: int,
) -> Seq<Seq<char>>
    decreases count,
{
    if count <= 0 {
        Seq::empty()
    } else {
        let before = common_upto(graph, left, right, count - 1);
        if graph[count - 1].1.contains(left) && graph[count - 1].1.contains(right) {
            before.push(graph[count - 1].0)
        } else {
            before
        }
    }
}

/// The symbols that overload both `left` and `right`.
pub open spec fn common_overloads(
    graph: OverloadGraphV,
    left: Seq<char>,
    right: Seq<char>,
) -> Seq<Seq<char>> {
    common_upto(graph, left, right, graph.len() as int)
}

/// Whether none of `names` but `name` itself is overloaded by `name`.
pub open spec fn minimal(graph: OverloadGraphV, names: Seq<Seq<char>>, name: Seq<char>) -> bool {
    forall|i: int|
        0 <= i < names.len() ==> (#[trigger] names[i]) == name || !overloading(
            graph,
            name,
            names[i],
        )
}

/// The minimal ones of the first `count` of `names`.
pub open spec fn minimal_upto(
    graph: OverloadGraphV,
    names: Seq<Seq<char>>,
    count: int,
) -> Seq<Seq<char>>
    decreases count,
{
    if count <= 0 {
        Seq::empty()
    } else {
        let before = minimal_upto(graph, names, count - 1);
        if minimal(graph, names, names[count - 1]) {
            before.push(names[count - 1])
        } else {
            before
        }
    }
}

/// The least symbol that overloads both `left` and `right`, where there is exactly one.
pub open spec fn least_common_overload(
    graph: OverloadGraphV,
    left: Seq<char>,
    right: Seq<char>,
) -> Option<Seq<char>> {
    let common = common_overloads(graph, left, right);
    let least = minimal_upto(graph, common, common.len() as int);
    if least.len() == 1 {
        Some(least[0])
    } else {
        None
    }
}

impl OverloadGraph {
    /// A graph without entries.
    pub fn new() -> (graph: Self)
        ensures
            graph@ == OverloadGraphV::empty(),
    {
        OverloadGraph { overloads: Vec::new() }
    }

    /// The symbols that `name` overloads.
    pub fn overloaded_by(&self, name: &String) -> (result: Vec<String>)
        ensures
            deep(result@) == overloaded_by(self@, name@),
    {
        match assoc_get(&self.overloads, name) {
            Some(names) => names.duplicate(),
            None => Vec::new(),
        }
    }

    /// Whether `upper` overloads `lower`.
    pub fn is_overloading(&self, upper: &String, lower: &String) -> (result: bool)
        ensures
            result == overloading(self@, upper@, lower@),
    {
        match assoc_get(&self.overloads, upper) {
            Some(names) => contains(names, lower),
            None => false,
        }
    }

    /// Whether `name` takes part in an overload.
    pub fn is_overloaded(&self, name: &String) -> (result: bool)
        ensures
            result == overloaded(self@, name@),
    {
        let mut i: usize = 0;
        while i < self.overloads.len()
            invariant
                i <= self.overloads.len(),
                forall|j: int|
                    0 <= j < i ==> (#[trigger] self@[j]).0 != name@ && !self@[j].1.contains(name@),
            decreases self.overloads.len() - i,
        {
            assert(self@[i as int] == (
                self.overloads[i as int].0@,
                deep(self.overloads[i as int].1@),
            ));
            if self.overloads[i].0 == *name || contains(&self.overloads[i].1, name) {
                return true;
            }
            i += 1;
        }
        false
    }

    /// The symbols that overload both `left` and `right`.
    pub fn common_overloads(&self, left: &String, right: &String) -> (result: Vec<String>)
        ensures
            deep(result@) == common_overloads(self@, left@, right@),
    {
        let mut result: Vec<String> = Vec::new();
        let mut i: usize = 0;
        while i < self.overloads.len()
            invariant
                i <= self.overloads.len(),
                deep(result@) == common_upto(self@, left@, right@, i as int),
            decreases self.overloads.len() - i,
        {
            assert(self@[i as int] == (
                self.overloads[i as int].0@,
                deep(self.overloads[i as int].1@),
            ));
            if contains(&self.overloads[i].1, left) && contains(&self.overloads[i].1, right) {
                result.push(self.overloads[i].0.clone());
            }
            i += 1;
        }
        result
    }

    fn is_minimal(&self, names: &Vec<String>, name: &String) -> (result: bool)
        ensures
            result == minimal(self@, deep(names@), name@),
    {
        let mut i: usize = 0;
        while i < names.len()
            invariant
                i <= names.len(),
                forall|j: int|
                    0 <= j < i ==> (#[trigger] deep(names@)[j]) == name@ || !overloading(
                        self@,
                        name@,
                        deep(names@)[j],
                    ),
            decreases names.len() - i,
        {
            assert(deep(names@)[i as int] == names[i as int]@);
            if names[i] != *name && self.is_overloading(name, &names[i]) {
                return false;
            }
            i += 1;
        }
        true
    }

    /// The least symbol that overloads both `left` and `right`, where there is exactly one.
    pub fn least_common_overload(&self, left: &String, right: &String) -> (result: Option<String>)
        ensures
            result.deep_view() == least_common_overload(self@, left@, right@),
    {
        let common = self.common_overloads(left, right);
        let mut least: Vec<String> = Vec::new();
        let mut i: usize = 0;
        while i < common.len()
            invariant
                i <= common.len(),
                deep(least@) == minimal_upto(self@, deep(common@), i as int),
            decreases common.len() - i,
        {
            assert(deep(common@)[i as int] == common[i as int]@);
            if self.is_minimal(&common, &common[i]) {
                least.push(common[i].clone());
            }
            i += 1;
        }
        if least.len() == 1 {
            assert(deep(least@)[0] == least[0]@);
            Some(least[0].clone())
        } else {
            None
        }
    }
}

} // verus!
