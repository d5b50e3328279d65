//! Solving the pairs of collections that a match leaves open.

use vstd::prelude::*;
use crate::definition::BackendDefinition;
use crate::keys::lemma_items;
use crate::kernel::{Kernel, UnificationResult, UnificationResultV};
use crate::match_collections::{
    copy_range, lemma_optional_view, make_list, open_list, pair_prefix, pair_suffix, prefix_pairs,
    prefix_remainder, suffix_pairs, suffix_remainder,
};
use crate::matcher::{definition_context, list_rest, match_terms_in_definition, terms_matched};
use crate::matching::{
    is_concat, is_variable, MatchMode, MatchResult, MatchResultV, PairRemainder, PairRemainderV,
};
use crate::model::{deep, difference, group_deep, subtract, Value};
use crate::ops::{into_ordered, item_keys, ordered, Keyed};
use crate::predicate::{Predicate, PredicateV};
use crate::substitution::{compose, composed, substitute, substituted, Substitution, SubstitutionV};
use crate::term::{
    lemma_term_view, CollectionDefinition, CollectionDefinitionV, Sort, SortV, Symbol, SymbolV,
    Term, TermV, Variable, VariableV,
};

verus! {

broadcast use {group_deep, lemma_optional_view};

/// One solution of the pairs of collections that a match left open.
#[derive(Debug, PartialEq, Eq)]
pub struct CollectionSolution {
    /// Bindings of rule variables, and of subject variables that were narrowed.
    pub substitution: Substitution,
    /// Equalities that were met and could not be solved.
    pub constraints: Vec<Predicate>,
    /// Variables made for what is left of a collection that was narrowed.
    pub fresh: Vec<Variable>,
}

/// The view of [`CollectionSolution`].
pub struct CollectionSolutionV {
    pub substitution: SubstitutionV,
    pub constraints: Seq<PredicateV>,
    pub fresh: Seq<VariableV>,
}

impl View for CollectionSolution {
    type V = CollectionSolutionV;

    open spec fn view(&self) -> CollectionSolutionV {
        CollectionSolutionV {
            substitution: self.substitution@,
            constraints: deep(self.constraints@),
            fresh: deep(self.fresh@),
        }
    }
}

impl DeepView for CollectionSolution {
    type V = CollectionSolutionV;

    open spec fn deep_view(&self) -> CollectionSolutionV {
        self@
    }
}

impl Value for CollectionSolution {
    fn duplicate(&self) -> (copy: Self) {
        CollectionSolution {
            substitution: self.substitution.duplicate(),
            constraints: self.constraints.duplicate(),
            fresh: self.fresh.duplicate(),
        }
    }

    fn equals(&self, other: &Self) -> (same: bool) {
        self.substitution.equals(&other.substitution)
            && self.constraints.equals(&other.constraints)
            && self.fresh.equals(&other.fresh)
    }
}

/// Where fresh variables come from when a subject's collection is narrowed.
#[derive(Debug, PartialEq, Eq)]
pub struct Narrowing {
    /// The names in use.
    pub avoided: Vec<String>,
    pub counter: u64,
}

/// The view of [`Narrowing`].
pub struct NarrowingV {
    pub avoided: Seq<Seq<char>>,
    pub counter: u64,
}

impl View for Narrowing {
    type V = NarrowingV;

    open spec fn view(&self) -> NarrowingV {
        NarrowingV {
            avoided: deep(self.avoided@),
            counter: self.counter,
        }
    }
}

impl DeepView for Narrowing {
    type V = NarrowingV;

    open spec fn deep_view(&self) -> NarrowingV {
        self@
    }
}

impl Value for Narrowing {
    fn duplicate(&self) -> (copy: Self) {
        Narrowing {
            avoided: self.avoided.duplicate(),
            counter: self.counter,
        }
    }

    fn equals(&self, other: &Self) -> (same: bool) {
        self.avoided.equals(&other.avoided)
            && self.counter == other.counter
    }
}

/// What solving one pair of terms gives.
#[derive(Debug, PartialEq, Eq)]
pub enum PairSolution {
    Solved(CollectionSolution),
    NoSolution,
    Indeterminate,
}

/// The view of [`PairSolution`].
pub enum PairSolutionV {
    Solved(CollectionSolutionV),
    NoSolution,
    Indeterminate,
}

impl View for PairSolution {
    type V = PairSolutionV;

    open spec fn view(&self) -> PairSolutionV {
        match self {
            PairSolution::Solved(first) => PairSolutionV::Solved(first@),
            PairSolution::NoSolution => PairSolutionV::NoSolution,
            PairSolution::Indeterminate => PairSolutionV::Indeterminate,
        }
    }
}

impl DeepView for PairSolution {
    type V = PairSolutionV;

    open spec fn deep_view(&self) -> PairSolutionV {
        self@
    }
}

impl Value for PairSolution {
    fn duplicate(&self) -> (copy: Self) {
        match self {
            PairSolution::Solved(first) => PairSolution::Solved(first.duplicate()),
            PairSolution::NoSolution => PairSolution::NoSolution,
            PairSolution::Indeterminate => PairSolution::Indeterminate,
        }
    }

    fn equals(&self, other: &Self) -> (same: bool) {
        match (self, other) {
            (PairSolution::Solved(first), PairSolution::Solved(other_first)) => first.equals(
                other_first,
            ),
            (PairSolution::NoSolution, PairSolution::NoSolution) => true,
            (PairSolution::Indeterminate, PairSolution::Indeterminate) => true,
            _ => false,
        }
    }
}

/// A symbol by which opaque collections are concatenated, with its sort arguments.
#[derive(Debug, PartialEq, Eq)]
pub struct OpaqueConcatHead {
    pub symbol: Symbol,
    pub sort_arguments: Vec<Sort>,
}

/// The view of [`OpaqueConcatHead`].
pub struct OpaqueConcatHeadV {
    pub symbol: SymbolV,
    pub sort_arguments: Seq<SortV>,
}

impl View for OpaqueConcatHead {
    type V = OpaqueConcatHeadV;

    open spec fn view(&self) -> OpaqueConcatHeadV {
        OpaqueConcatHeadV {
            symbol: self.symbol@,
            sort_arguments: deep(self.sort_arguments@),
        }
    }
}

impl DeepView for OpaqueConcatHead {
    type V = OpaqueConcatHeadV;

    open spec fn deep_view(&self) -> OpaqueConcatHeadV {
        self@
    }
}

impl Value for OpaqueConcatHead {
    fn duplicate(&self) -> (copy: Self) {
        OpaqueConcatHead {
            symbol: self.symbol.duplicate(),
            sort_arguments: self.sort_arguments.duplicate(),
        }
    }

    fn equals(&self, other: &Self) -> (same: bool) {
        self.symbol.equals(&other.symbol)
            && self.sort_arguments.equals(&other.sort_arguments)
    }
}

impl Keyed for CollectionSolution {
    open spec fn key(view: CollectionSolutionV) -> Seq<u32> {
        item_keys::<(Variable, Term)>(view.substitution, 0) + item_keys::<Predicate>(
            view.constraints,
            0,
        ) + item_keys::<Variable>(view.fresh, 0)
    }

    fn push_key(&self, output: &mut Vec<u32>) {
        self.substitution.bindings.push_key(output);
        self.constraints.push_key(output);
        self.fresh.push_key(output);
        assert(output@ =~= old(output)@ + Self::key(self.deep_view()));
    }

    proof fn lemma_decodes(
        left: CollectionSolutionV,
        right: CollectionSolutionV,
        left_rest: Seq<u32>,
        right_rest: Seq<u32>,
    ) {
        let last = item_keys::<Variable>(left.fresh, 0) + left_rest;
        let other_last = item_keys::<Variable>(right.fresh, 0) + right_rest;
        let tail = item_keys::<Predicate>(left.constraints, 0) + last;
        let other_tail = item_keys::<Predicate>(right.constraints, 0) + other_last;
        assert(Self::key(left) + left_rest =~= item_keys::<(Variable, Term)>(left.substitution, 0)
            + tail);
        assert(Self::key(right) + right_rest =~= item_keys::<(Variable, Term)>(
            right.substitution,
            0,
        ) + other_tail);
        lemma_items::<(Variable, Term)>(left.substitution, right.substitution, 0, tail, other_tail);
        lemma_items::<Predicate>(left.constraints, right.constraints, 0, last, other_last);
        lemma_items::<Variable>(left.fresh, right.fresh, 0, left_rest, right_rest);
        assert(left.substitution =~= right.substitution);
        assert(left.constraints =~= right.constraints);
        assert(left.fresh =~= right.fresh);
    }
}

// ---------------------------------------------------------------------------------------------
// Pairs of terms
// ---------------------------------------------------------------------------------------------
/// What solving `pattern` with `subject` makes of `solution`. Where `narrow` holds, what a match
/// leaves open is unified.
pub open spec fn term_pair_solved<K: Kernel>(
    mode: MatchMode,
    definition: BackendDefinition<K>,
    solution: CollectionSolutionV,
    pattern: TermV,
    subject: TermV,
    narrow: bool,
) -> PairSolutionV {
    match terms_matched(
        definition_context(mode, &definition),
        substituted(pattern, solution.substitution),
        substituted(subject, solution.substitution),
    ) {
        MatchResultV::Success(found) => PairSolutionV::Solved(
            CollectionSolutionV {
                substitution: composed(found, solution.substitution),
                ..solution
            },
        ),
        MatchResultV::Failed(_) => PairSolutionV::NoSolution,
        MatchResultV::Indeterminate { substitution, remainder } => if narrow {
            match definition.kernel.unified(
                composed(substitution, solution.substitution),
                remainder,
            ) {
                UnificationResultV::Unified { substitution, constraints } => PairSolutionV::Solved(
                    CollectionSolutionV {
                        substitution,
                        constraints: solution.constraints + constraints,
                        fresh: solution.fresh,
                    },
                ),
                UnificationResultV::Bottom(_) => PairSolutionV::NoSolution,
                UnificationResultV::Unsupported { .. } => PairSolutionV::Indeterminate,
            }
        } else {
            PairSolutionV::Indeterminate
        },
    }
}

pub(crate) fn solve_term_pair<K: Kernel>(
    mode: MatchMode,
    definition: &BackendDefinition<K>,
    solution: CollectionSolution,
    pattern: &Term,
    subject: &Term,
    narrow: bool,
) -> (result: PairSolution)
    ensures
        result@ == term_pair_solved(mode, *definition, solution@, pattern@, subject@, narrow),
{
    let pattern = substitute(pattern, &solution.substitution);
    let subject = substitute(subject, &solution.substitution);
    match match_terms_in_definition(mode, definition, &pattern, &subject) {
        MatchResult::Success(found) => PairSolution::Solved(
            CollectionSolution {
                substitution: compose(&found, &solution.substitution),
                constraints: solution.constraints,
                fresh: solution.fresh,
            },
        ),
        MatchResult::Failed(_) => PairSolution::NoSolution,
        MatchResult::Indeterminate { substitution, remainder } => {
            if narrow {
                let substitution = compose(&substitution, &solution.substitution);
                match definition.kernel.unify(substitution, remainder) {
                    UnificationResult::Unified { substitution, constraints } => {
                        let mut all = solution.constraints;
                        let mut constraints = constraints;
                        all.append(&mut constraints);
                        PairSolution::Solved(
                            CollectionSolution {
                                substitution,
                                constraints: all,
                                fresh: solution.fresh,
                            },
                        )
                    },
                    UnificationResult::Bottom(_) => PairSolution::NoSolution,
                    UnificationResult::Unsupported { .. } => PairSolution::Indeterminate,
                }
            } else {
                PairSolution::Indeterminate
            }
        },
    }
}

/// What solving the pairs from `from` on, one after the other, makes of `solution`.
pub open spec fn term_pairs_solved<K: Kernel>(
    mode: MatchMode,
    definition: BackendDefinition<K>,
    solution: CollectionSolutionV,
    pairs: Seq<(TermV, TermV)>,
    narrow: bool,
    from: int,
) -> PairSolutionV
    decreases pairs.len() - from,
{
    if from >= pairs.len() {
        PairSolutionV::Solved(solution)
    } else {
        match term_pair_solved(
            mode,
            definition,
            solution,
            pairs[from].0,
            pairs[from].1,
            narrow,
        ) {
            PairSolutionV::Solved(solution) => term_pairs_solved(
                mode,
                definition,
                solution,
                pairs,
                narrow,
                from + 1,
            ),
            other => other,
        }
    }
}

fn solve_term_pairs<K: Kernel>(
    mode: MatchMode,
    definition: &BackendDefinition<K>,
    solution: CollectionSolution,
    pairs: &Vec<(Term, Term)>,
    narrow: bool,
) -> (result: PairSolution)
    ensures
        result@ == term_pairs_solved(mode, *definition, solution@, deep(pairs@), narrow, 0),
{
    let mut current = solution;
    let mut i: usize = 0;
    while i < pairs.len()
        invariant
            i <= pairs.len(),
            term_pairs_solved(mode, *definition, solution@, deep(pairs@), narrow, 0)
                == term_pairs_solved(
                mode,
                *definition,
                current@,
                deep(pairs@),
                narrow,
                i as int,
            ),
        decreases pairs.len() - i,
    {
        assert(deep(pairs@)[i as int] == (pairs[i as int].0@, pairs[i as int].1@));
        match solve_term_pair(mode, definition, current, &pairs[i].0, &pairs[i].1, narrow) {
            PairSolution::Solved(next) => {
                current = next;
            },
            PairSolution::NoSolution => {
                return PairSolution::NoSolution;
            },
            PairSolution::Indeterminate => {
                return PairSolution::Indeterminate;
            },
        }
        i += 1;
    }
    PairSolution::Solved(current)
}

/// The solutions that one pair's solution amounts to: none at all where it is not known.
pub open spec fn as_solutions(solution: PairSolutionV) -> Option<Seq<CollectionSolutionV>> {
    match solution {
        PairSolutionV::Solved(solution) => Some(seq![solution]),
        PairSolutionV::NoSolution => Some(Seq::empty()),
        PairSolutionV::Indeterminate => None,
    }
}

pub(crate) fn into_solutions(solution: PairSolution) -> (result: Option<Vec<CollectionSolution>>)
    ensures
        result.deep_view() == as_solutions(solution@),
{
    match solution {
        PairSolution::Solved(solution) => {
            let mut result: Vec<CollectionSolution> = Vec::new();
            result.push(solution);
            assert(deep(result@) =~= seq![solution@]);
            Some(result)
        },
        PairSolution::NoSolution => Some(Vec::new()),
        PairSolution::Indeterminate => None,
    }
}

// ---------------------------------------------------------------------------------------------
// Lists
// ---------------------------------------------------------------------------------------------
/// The pairs that a list without a rest and a list with one come down to, where the former is
/// long enough: the heads, the tails, and what stands between them with the rest.
pub open spec fn frame_pairs(
    definition: CollectionDefinitionV,
    closed: Seq<TermV>,
    heads: Seq<TermV>,
    frame: TermV,
    tails: Seq<TermV>,
    on_subject: bool,
) -> Seq<(TermV, TermV)> {
    let end = closed.len() - tails.len();
    let between = open_list(definition, closed.subrange(heads.len() as int, end), None);
    let pairs = Seq::new(
        heads.len() + tails.len() + 1,
        |i: int|
            if i < heads.len() {
                (closed[i], heads[i])
            } else if i < heads.len() + tails.len() {
                (closed[end + (i - heads.len())], tails[i - heads.len()])
            } else {
                (between, frame)
            },
    );
    if on_subject {
        pairs
    } else {
        swapped(pairs)
    }
}

/// The pairs with their sides exchanged.
pub open spec fn swapped(pairs: Seq<(TermV, TermV)>) -> Seq<(TermV, TermV)> {
    Seq::new(pairs.len(), |i: int| (pairs[i].1, pairs[i].0))
}

/// The solutions of a list without a rest and a list with one.
pub open spec fn single_frame_solved<K: Kernel>(
    mode: MatchMode,
    backend: BackendDefinition<K>,
    definition: CollectionDefinitionV,
    solution: CollectionSolutionV,
    closed: Seq<TermV>,
    heads: Seq<TermV>,
    frame: TermV,
    tails: Seq<TermV>,
    on_subject: bool,
) -> Option<Seq<CollectionSolutionV>> {
    if !(frame is Variable) {
        None
    } else if heads.len() + tails.len() > closed.len() {
        Some(Seq::empty())
    } else {
        as_solutions(
            term_pairs_solved(
                mode,
                backend,
                solution,
                frame_pairs(definition, closed, heads, frame, tails, on_subject),
                true,
                0,
            ),
        )
    }
}

fn make_frame_pairs(
    definition: &CollectionDefinition,
    closed: &Vec<Term>,
    heads: &Vec<Term>,
    frame: &Term,
    tails: &Vec<Term>,
    on_subject: bool,
) -> (result: Vec<(Term, Term)>)
    requires
        heads.len() + tails.len() <= closed.len(),
    ensures
        deep(result@) == frame_pairs(
            definition@,
            deep(closed@),
            deep(heads@),
            frame@,
            deep(tails@),
            on_subject,
        ),
{
    let end: usize = closed.len() - tails.len();
    let mut pairs: Vec<(Term, Term)> = Vec::new();
    let mut i: usize = 0;
    while i < heads.len()
        invariant
            i <= heads.len(),
            heads.len() + tails.len() <= closed.len(),
            pairs.len() == i,
            forall|j: int|
                0 <= j < i ==> if on_subject {
                    (#[trigger] pairs[j]).0@ == closed[j]@ && pairs[j].1@ == heads[j]@
                } else {
                    pairs[j].1@ == closed[j]@ && pairs[j].0@ == heads[j]@
                },
        decreases heads.len() - i,
    {
        if on_subject {
            pairs.push((closed[i].duplicate(), heads[i].duplicate()));
        } else {
            pairs.push((heads[i].duplicate(), closed[i].duplicate()));
        }
        i += 1;
    }
    let mut k: usize = 0;
    while k < tails.len()
        invariant
            k <= tails.len(),
            heads.len() + tails.len() <= closed.len(),
            end == closed.len() - tails.len(),
            pairs.len() == heads.len() + k,
            forall|j: int|
                0 <= j < heads.len() ==> if on_subject {
                    (#[trigger] pairs[j]).0@ == closed[j]@ && pairs[j].1@ == heads[j]@
                } else {
                    pairs[j].1@ == closed[j]@ && pairs[j].0@ == heads[j]@
                },
            forall|j: int|
                heads.len() <= j < heads.len() + k ==> if on_subject {
                    (#[trigger] pairs[j]).0@ == closed[end + (j - heads.len())]@ && pairs[j].1@
                        == tails[j - heads.len()]@
                } else {
                    pairs[j].1@ == closed[end + (j - heads.len())]@ && pairs[j].0@ == tails[j
                        - heads.len()]@
                },
        decreases tails.len() - k,
    {
        if on_subject {
            pairs.push((closed[end + k].duplicate(), tails[k].duplicate()));
        } else {
            pairs.push((tails[k].duplicate(), closed[end + k].duplicate()));
        }
        k += 1;
    }
    let between = make_list(definition, copy_range(closed, heads.len(), end), None);
    if on_subject {
        pairs.push((between, frame.duplicate()));
    } else {
        pairs.push((frame.duplicate(), between));
    }
    assert(deep(pairs@) =~= frame_pairs(
        definition@,
        deep(closed@),
        deep(heads@),
        frame@,
        deep(tails@),
        on_subject,
    ));
    pairs
}

fn solve_single_list_frame<K: Kernel>(
    mode: MatchMode,
    backend: &BackendDefinition<K>,
    definition: &CollectionDefinition,
    solution: CollectionSolution,
    closed: &Vec<Term>,
    heads: &Vec<Term>,
    frame: &Term,
    tails: &Vec<Term>,
    on_subject: bool,
) -> (result: Option<Vec<CollectionSolution>>)
    ensures
        result.deep_view() == single_frame_solved(
            mode,
            *backend,
            definition@,
            solution@,
            deep(closed@),
            deep(heads@),
            frame@,
            deep(tails@),
            on_subject,
        ),
{
    if !is_variable(frame) {
        return None;
    }
    if tails.len() > closed.len() || heads.len() > closed.len() - tails.len() {
        return Some(Vec::new());
    }
    let pairs = make_frame_pairs(definition, closed, heads, frame, tails, on_subject);
    into_solutions(solve_term_pairs(mode, backend, solution, &pairs, true))
}

/// The items of a remainder if it is on the left, or on the right.
pub open spec fn remainder_on(remainder: Option<PairRemainderV>, left: bool) -> Seq<TermV> {
    match remainder {
        Some(PairRemainderV::Left(terms)) => if left {
            terms
        } else {
            Seq::empty()
        },
        Some(PairRemainderV::Right(terms)) => if left {
            Seq::empty()
        } else {
            terms
        },
        None => Seq::empty(),
    }
}

fn take_remainder(remainder: &Option<PairRemainder>, left: bool) -> (result: Vec<Term>)
    ensures
        deep(result@) == remainder_on(remainder.deep_view(), left),
{
    match remainder {
        Some(PairRemainder::Left(terms)) => {
            if left {
                terms.duplicate()
            } else {
                Vec::new()
            }
        },
        Some(PairRemainder::Right(terms)) => {
            if left {
                Vec::new()
            } else {
                terms.duplicate()
            }
        },
        None => Vec::new(),
    }
}

/// The solutions of two lists that both have a rest.
pub open spec fn two_frames_solved<K: Kernel>(
    mode: MatchMode,
    backend: BackendDefinition<K>,
    definition: CollectionDefinitionV,
    solution: CollectionSolutionV,
    pattern_heads: Seq<TermV>,
    pattern_middle: TermV,
    pattern_tails: Seq<TermV>,
    subject_heads: Seq<TermV>,
    subject_middle: TermV,
    subject_tails: Seq<TermV>,
) -> Option<Seq<CollectionSolutionV>> {
    let heads = prefix_remainder(pattern_heads, subject_heads);
    let tails = suffix_remainder(pattern_tails, subject_tails);
    let pattern_extra = remainder_on(heads, true).len() > 0 || remainder_on(tails, true).len() > 0;
    let subject_extra = remainder_on(heads, false).len() > 0 || remainder_on(tails, false).len()
        > 0;
    if !(pattern_middle is Variable) || !(subject_middle is Variable) || (pattern_extra
        && subject_extra) {
        None
    } else {
        let middle = if pattern_extra {
            (
                open_list(
                    definition,
                    remainder_on(heads, true),
                    Some((pattern_middle, remainder_on(tails, true))),
                ),
                subject_middle,
            )
        } else if subject_extra {
            (
                pattern_middle,
                open_list(
                    definition,
                    remainder_on(heads, false),
                    Some((subject_middle, remainder_on(tails, false))),
                ),
            )
        } else {
            (pattern_middle, subject_middle)
        };
        as_solutions(
            term_pairs_solved(
                mode,
                backend,
                solution,
                (prefix_pairs(pattern_heads, subject_heads) + suffix_pairs(
                    pattern_tails,
                    subject_tails,
                )).push(middle),
                true,
                0,
            ),
        )
    }
}

fn solve_two_list_frames<K: Kernel>(
    mode: MatchMode,
    backend: &BackendDefinition<K>,
    definition: &CollectionDefinition,
    solution: CollectionSolution,
    pattern_heads: &Vec<Term>,
    pattern_middle: &Term,
    pattern_tails: &Vec<Term>,
    subject_heads: &Vec<Term>,
    subject_middle: &Term,
    subject_tails: &Vec<Term>,
) -> (result: Option<Vec<CollectionSolution>>)
    ensures
        result.deep_view() == two_frames_solved(
            mode,
            *backend,
            definition@,
            solution@,
            deep(pattern_heads@),
            pattern_middle@,
            deep(pattern_tails@),
            deep(subject_heads@),
            subject_middle@,
            deep(subject_tails@),
        ),
{
    if !is_variable(pattern_middle) || !is_variable(subject_middle) {
        return None;
    }
    let (mut pairs, heads) = pair_prefix(pattern_heads, subject_heads);
    let (mut tail_pairs, tails) = pair_suffix(pattern_tails, subject_tails);
    pairs.append(&mut tail_pairs);
    let pattern_extra_heads = take_remainder(&heads, true);
    let subject_extra_heads = take_remainder(&heads, false);
    let pattern_extra_tails = take_remainder(&tails, true);
    let subject_extra_tails = take_remainder(&tails, false);
    let pattern_extra: bool = pattern_extra_heads.len() > 0 || pattern_extra_tails.len() > 0;
    let subject_extra: bool = subject_extra_heads.len() > 0 || subject_extra_tails.len() > 0;
    if pattern_extra && subject_extra {
        return None;
    }
    let middle = if pattern_extra {
        (
            make_list(
                definition,
                pattern_extra_heads,
                Some((pattern_middle.duplicate(), pattern_extra_tails)),
            ),
            subject_middle.duplicate(),
        )
    } else if subject_extra {
        (
            pattern_middle.duplicate(),
            make_list(
                definition,
                subject_extra_heads,
                Some((subject_middle.duplicate(), subject_extra_tails)),
            ),
        )
    } else {
        (pattern_middle.duplicate(), subject_middle.duplicate())
    };
    pairs.push(middle);
    into_solutions(solve_term_pairs(mode, backend, solution, &pairs, true))
}

/// The solutions of two lists after a match left some of it open.
pub open spec fn open_lists_solved<K: Kernel>(
    mode: MatchMode,
    backend: BackendDefinition<K>,
    pattern: TermV,
    subject: TermV,
    solution: CollectionSolutionV,
) -> Option<Seq<CollectionSolutionV>> {
    if !(pattern is KList) || !(subject is KList) {
        None
    } else if pattern->KList_definition != subject->KList_definition {
        Some(Seq::empty())
    } else {
        let definition = pattern->KList_definition;
        match (list_rest(pattern), list_rest(subject)) {
            (None, Some((middle, tails))) => single_frame_solved(
                mode,
                backend,
                definition,
                solution,
                pattern->KList_heads,
                subject->KList_heads,
                middle,
                tails,
                true,
            ),
            (Some((middle, tails)), None) => single_frame_solved(
                mode,
                backend,
                definition,
                solution,
                subject->KList_heads,
                pattern->KList_heads,
                middle,
                tails,
                false,
            ),
            (
                Some((middle, tails)),
                Some((subject_middle, subject_tails)),
            ) => two_frames_solved(
                mode,
                backend,
                definition,
                solution,
                pattern->KList_heads,
                middle,
                tails,
                subject->KList_heads,
                subject_middle,
                subject_tails,
            ),
            (None, None) => None,
        }
    }
}

/// The solutions of two lists.
pub open spec fn lists_solved<K: Kernel>(
    mode: MatchMode,
    backend: BackendDefinition<K>,
    pattern: TermV,
    subject: TermV,
    solution: CollectionSolutionV,
    narrow: bool,
) -> Option<Seq<CollectionSolutionV>> {
    match terms_matched(definition_context(mode, &backend), pattern, subject) {
        MatchResultV::Success(found) => Some(
            seq![
                CollectionSolutionV {
                    substitution: composed(found, solution.substitution),
                    ..solution
                },
            ],
        ),
        MatchResultV::Failed(_) => Some(Seq::empty()),
        MatchResultV::Indeterminate { substitution, .. } => if narrow {
            let solution = CollectionSolutionV {
                substitution: composed(substitution, solution.substitution),
                ..solution
            };
            open_lists_solved(
                mode,
                backend,
                substituted(pattern, solution.substitution),
                substituted(subject, solution.substitution),
                solution,
            )
        } else {
            None
        },
    }
}

fn solve_open_lists<K: Kernel>(
    mode: MatchMode,
    backend: &BackendDefinition<K>,
    pattern: &Term,
    subject: &Term,
    solution: CollectionSolution,
) -> (result: Option<Vec<CollectionSolution>>)
    ensures
        result.deep_view() == open_lists_solved(
            mode,
            *backend,
            pattern@,
            subject@,
            solution@,
        ),
{
    proof {
        lemma_term_view(*pattern);
        lemma_term_view(*subject);
    }
    match (pattern, subject) {
        (
            Term::KList { definition, heads, rest, tails },
            Term::KList {
                definition: other,
                heads: subject_heads,
                rest: subject_rest,
                tails: subject_tails,
            },
        ) => {
            if !definition.equals(other) {
                return Some(Vec::new());
            }
            match (rest, subject_rest) {
                (None, Some(middle)) => solve_single_list_frame(
                    mode,
                    backend,
                    definition,
                    solution,
                    heads,
                    subject_heads,
                    middle,
                    subject_tails,
                    true,
                ),
                (Some(middle), None) => solve_single_list_frame(
                    mode,
                    backend,
                    definition,
                    solution,
                    subject_heads,
                    heads,
                    middle,
                    tails,
                    false,
                ),
                (Some(middle), Some(subject_middle)) => solve_two_list_frames(
                    mode,
                    backend,
                    definition,
                    solution,
                    heads,
                    middle,
                    tails,
                    subject_heads,
                    subject_middle,
                    subject_tails,
                ),
                (None, None) => None,
            }
        },
        _ => None,
    }
}

pub(crate) fn solve_list_pair<K: Kernel>(
    mode: MatchMode,
    backend: &BackendDefinition<K>,
    pattern: &Term,
    subject: &Term,
    solution: CollectionSolution,
    narrow: bool,
) -> (result: Option<Vec<CollectionSolution>>)
    ensures
        result.deep_view() == lists_solved(
            mode,
            *backend,
            pattern@,
            subject@,
            solution@,
            narrow,
        ),
{
    match match_terms_in_definition(mode, backend, pattern, subject) {
        MatchResult::Success(found) => into_solutions(
            PairSolution::Solved(
                CollectionSolution {
                    substitution: compose(&found, &solution.substitution),
                    constraints: solution.constraints,
                    fresh: solution.fresh,
                },
            ),
        ),
        MatchResult::Failed(_) => Some(Vec::new()),
        MatchResult::Indeterminate { substitution, .. } => {
            if narrow {
                let solution = CollectionSolution {
                    substitution: compose(&substitution, &solution.substitution),
                    constraints: solution.constraints,
                    fresh: solution.fresh,
                };
                let pattern = substitute(pattern, &solution.substitution);
                let subject = substitute(subject, &solution.substitution);
                solve_open_lists(mode, backend, &pattern, &subject, solution)
            } else {
                None
            }
        },
    }
}

// ---------------------------------------------------------------------------------------------
// Opaque concatenations
// ---------------------------------------------------------------------------------------------
/// Whether `term` is a concatenation of two collections.
pub open spec fn is_binary_concat(term: TermV, concat: Seq<char>) -> bool {
    is_concat(term, concat) && term->Application_arguments.len() == 2
}

/// The parts of a concatenation that are not concatenations themselves, from left to right.
pub open spec fn chunks(term: TermV, concat: Seq<char>) -> Seq<TermV>
    decreases term,
{
    if is_binary_concat(term, concat) {
        let arguments = term->Application_arguments;
        proof {
            assert(decreases_to!(term => term->Application_arguments));
            assert(decreases_to!(arguments => arguments[0]));
            assert(decreases_to!(arguments => arguments[1]));
        }
        chunks(arguments[0], concat) + chunks(arguments[1], concat)
    } else {
        seq![term]
    }
}

/// The parts of an optional concatenation.
pub open spec fn optional_chunks(term: Option<TermV>, concat: Seq<char>) -> Seq<TermV> {
    match term {
        Some(term) => chunks(term, concat),
        None => Seq::empty(),
    }
}

/// The symbol of an optional concatenation.
pub open spec fn concat_head(term: Option<TermV>, concat: Seq<char>) -> Option<OpaqueConcatHeadV> {
    match term {
        Some(term) => if is_binary_concat(term, concat) {
            Some(
                OpaqueConcatHeadV {
                    symbol: term->Application_symbol,
                    sort_arguments: term->Application_sort_arguments,
                },
            )
        } else {
            None
        },
        None => None,
    }
}

/// `left` concatenated with the parts from `from` on.
pub open spec fn concatenated_from(
    left: TermV,
    parts: Seq<TermV>,
    head: Option<OpaqueConcatHeadV>,
    from: int,
) -> TermV
    decreases parts.len() - from,
{
    if from >= parts.len() || head is None {
        left
    } else {
        concatenated_from(
            TermV::Application {
                symbol: head->0.symbol,
                sort_arguments: head->0.sort_arguments,
                arguments: seq![left, parts[from]],
            },
            parts,
            head,
            from + 1,
        )
    }
}

/// The concatenation of `parts`.
pub open spec fn concatenated(parts: Seq<TermV>, head: Option<OpaqueConcatHeadV>) -> Option<TermV> {
    if parts.len() == 0 {
        None
    } else {
        Some(concatenated_from(parts[0], parts, head, 1))
    }
}

/// One of two opaque collections without the parts that both have.
pub open spec fn without_common_chunks(
    own: Option<TermV>,
    other: Option<TermV>,
    concat: Seq<char>,
) -> Option<TermV> {
    concatenated(
        ordered::<Term>(difference(optional_chunks(own, concat), optional_chunks(other, concat))),
        concat_head(own, concat),
    )
}

fn collect_chunks(term: &Term, concat: &String, output: &mut Vec<Term>)
    ensures
        deep(final(output)@) == deep(old(output)@) + chunks(term@, concat@),
    decreases term@,
{
    proof {
        lemma_term_view(*term);
    }
    if let Term::Application { symbol, arguments, .. } = term {
        if symbol.name == *concat && arguments.len() == 2 {
            proof {
                let kids = term@->Application_arguments;
                assert(kids[0] == arguments[0]@);
                assert(kids[1] == arguments[1]@);
                assert(decreases_to!(term@ => term@->Application_arguments));
                assert(decreases_to!(kids => kids[0]));
                assert(decreases_to!(kids => kids[1]));
            }
            collect_chunks(&arguments[0], concat, output);
            collect_chunks(&arguments[1], concat, output);
            assert(deep(output@) =~= deep(old(output)@) + chunks(term@, concat@));
            return ;
        }
    }
    output.push(term.duplicate());
    assert(deep(output@) =~= deep(old(output)@) + chunks(term@, concat@));
}

fn flatten_opaque_chunks(rest: &Option<Term>, concat: &String) -> (result: (
    Vec<Term>,
    Option<OpaqueConcatHead>,
))
    ensures
        deep(result.0@) == optional_chunks(rest.deep_view(), concat@),
        result.1.deep_view() == concat_head(rest.deep_view(), concat@),
{
    let mut parts: Vec<Term> = Vec::new();
    match rest {
        Some(rest) => {
            collect_chunks(rest, concat, &mut parts);
            proof {
                lemma_term_view(*rest);
                assert(deep(parts@) =~= chunks(rest@, concat@));
            }
            if let Term::Application { symbol, sort_arguments, arguments } = rest {
                if symbol.name == *concat && arguments.len() == 2 {
                    return (
                        parts,
                        Some(
                            OpaqueConcatHead {
                                symbol: symbol.duplicate(),
                                sort_arguments: sort_arguments.duplicate(),
                            },
                        ),
                    );
                }
            }
            (parts, None)
        },
        None => (parts, None),
    }
}

fn rebuild_opaque_chunks(parts: &Vec<Term>, head: &Option<OpaqueConcatHead>) -> (result: Option<
    Term,
>)
    ensures
        result.deep_view() == concatenated(deep(parts@), head.deep_view()),
{
    if parts.len() == 0 {
        return None;
    }
    assert(deep(parts@)[0] == parts[0]@);
    let mut left = parts[0].duplicate();
    if let Some(head) = head {
        let mut i: usize = 1;
        while i < parts.len()
            invariant
                1 <= i <= parts.len(),
                concatenated(deep(parts@), Some(head@)) == Some(
                    concatenated_from(left@, deep(parts@), Some(head@), i as int),
                ),
            decreases parts.len() - i,
        {
            let mut arguments: Vec<Term> = Vec::new();
            let ghost before = left@;
            arguments.push(left);
            arguments.push(parts[i].duplicate());
            assert(deep(arguments@) =~= seq![before, deep(parts@)[i as int]]);
            left =
            Term::application(head.symbol.duplicate(), head.sort_arguments.duplicate(), arguments);
            i += 1;
        }
    }
    Some(left)
}

/// Cancel the opaque parts that occur on both sides of an equation between collections.
///
/// Every occurrence of a common part goes, on both sides; what is left comes in the order of
/// terms.
pub(crate) fn cancel_common_opaque_chunks(
    left: Option<Term>,
    right: Option<Term>,
    concat: &String,
) -> (result: (Option<Term>, Option<Term>))
    ensures
        result.0.deep_view() == without_common_chunks(left.deep_view(), right.deep_view(), concat@),
        result.1.deep_view() == without_common_chunks(right.deep_view(), left.deep_view(), concat@),
{
    let (left_parts, left_head) = flatten_opaque_chunks(&left, concat);
    let (right_parts, right_head) = flatten_opaque_chunks(&right, concat);
    let left_only = into_ordered(&subtract(&left_parts, &right_parts));
    let right_only = into_ordered(&subtract(&right_parts, &left_parts));
    (
        rebuild_opaque_chunks(&left_only, &left_head),
        rebuild_opaque_chunks(&right_only, &right_head),
    )
}

} // verus!
