//! Implications between a closed map and an open one, as equations.

use vstd::prelude::*;
use crate::construct::map_term;
use crate::match_collections::lemma_optional_view;
use crate::model::{contains, deep, group_deep, Value};
use crate::ops::{into_sorted, sorted};
use crate::substitution::{substitute, substituted, Substitution, SubstitutionV};
use crate::term::{lemma_term_view, CollectionDefinition, CollectionDefinitionV, Term, TermV};

verus! {

broadcast use {group_deep, lemma_optional_view};

/// Equations between terms.
pub type EquationsV = Seq<(TermV, TermV)>;

/// A closed map that is to equal an open one with no more entries.
pub struct ClosedMapImplicationProblem<'a> {
    pub definition: &'a CollectionDefinition,
    pub pattern_entries: &'a Vec<(Term, Term)>,
    pub subject_entries: &'a Vec<(Term, Term)>,
    pub subject_rest: &'a Term,
}

/// The view of a [`ClosedMapImplicationProblem`].
pub struct ClosedMapImplicationProblemV {
    pub definition: CollectionDefinitionV,
    pub pattern_entries: Seq<(TermV, TermV)>,
    pub subject_entries: Seq<(TermV, TermV)>,
    pub subject_rest: TermV,
}

impl<'a> View for ClosedMapImplicationProblem<'a> {
    type V = ClosedMapImplicationProblemV;

    open spec fn view(&self) -> ClosedMapImplicationProblemV {
        ClosedMapImplicationProblemV {
            definition: self.definition@,
            pattern_entries: deep(self.pattern_entries@),
            subject_entries: deep(self.subject_entries@),
            subject_rest: self.subject_rest@,
        }
    }
}

/// The equations of the first `count` entries of the subject with the entries of the pattern that
/// were selected for them.
pub open spec fn entry_equations(
    problem: ClosedMapImplicationProblemV,
    chosen: Seq<usize>,
    count: int,
) -> EquationsV
    decreases count,
{
    if count <= 0 {
        Seq::empty()
    } else {
        let subject = problem.subject_entries[count - 1];
        let pattern = problem.pattern_entries[chosen[count - 1] as int];
        entry_equations(problem, chosen, count - 1).push((subject.0, pattern.0)).push(
            (subject.1, pattern.1),
        )
    }
}

/// The entries of the pattern among the first `count` that were not selected.
pub open spec fn entries_left(
    entries: Seq<(TermV, TermV)>,
    chosen: Seq<usize>,
    count: int,
) -> Seq<(TermV, TermV)>
    decreases count,
{
    if count <= 0 {
        Seq::empty()
    } else {
        let before = entries_left(entries, chosen, count - 1);
        if chosen.contains((count - 1) as usize) {
            before
        } else {
            before.push(entries[count - 1])
        }
    }
}

/// The equations of a selection: the rest of the subject is the map of the entries that are left.
pub open spec fn selection_equations(
    problem: ClosedMapImplicationProblemV,
    chosen: Seq<usize>,
) -> EquationsV {
    entry_equations(problem, chosen, chosen.len() as int).push(
        (
            problem.subject_rest,
            map_term(
                problem.definition,
                entries_left(
                    problem.pattern_entries,
                    chosen,
                    problem.pattern_entries.len() as int,
                ),
                None,
            ),
        ),
    )
}

/// The equations of all selections that go on from `chosen`, behind `found`.
pub open spec fn enumerated(
    problem: ClosedMapImplicationProblemV,
    chosen: Seq<usize>,
    found: Seq<EquationsV>,
) -> Seq<EquationsV>
    decreases problem.subject_entries.len() - chosen.len(), 1int, 0int,
{
    if chosen.len() >= problem.subject_entries.len() {
        found.push(selection_equations(problem, chosen))
    } else {
        enumerated_from(problem, chosen, found, 0)
    }
}

/// The same, where the next entry of the subject is an entry of the pattern from `from` on that is
/// not selected yet.
pub open spec fn enumerated_from(
    problem: ClosedMapImplicationProblemV,
    chosen: Seq<usize>,
    found: Seq<EquationsV>,
    from: int,
) -> Seq<EquationsV>
    decreases
            problem.subject_entries.len() - chosen.len(),
            0int,
            problem.pattern_entries.len() - from,
{
    if from >= problem.pattern_entries.len() || chosen.len() >= problem.subject_entries.len() {
        found
    } else {
        let next = if chosen.contains(from as usize) {
            found
        } else {
            enumerated(problem, chosen.push(from as usize), found)
        };
        enumerated_from(problem, chosen, next, from + 1)
    }
}

/// The ways in which an open map equals a closed one, where a pair is of such maps.
pub open spec fn closed_map_expansion(pattern: TermV, subject: TermV) -> Option<Seq<EquationsV>> {
    match (pattern, subject) {
        (
            TermV::KMap { definition, entries, rest: None },
            TermV::KMap { definition: other, entries: subject_entries, rest: Some(subject_rest) },
        ) => if definition == other && subject_entries.len() <= entries.len() {
            Some(
                enumerated(
                    ClosedMapImplicationProblemV {
                        definition,
                        pattern_entries: entries,
                        subject_entries,
                        subject_rest: *subject_rest,
                    },
                    Seq::empty(),
                    Seq::empty(),
                ),
            )
        } else {
            None
        },
        _ => None,
    }
}

/// A branch with the equations of each way from `from` on, behind `found`.
pub open spec fn branch_expanded(
    branch: EquationsV,
    ways: Seq<EquationsV>,
    found: Seq<EquationsV>,
    from: int,
) -> Seq<EquationsV>
    decreases ways.len() - from,
{
    if from >= ways.len() {
        found
    } else {
        branch_expanded(branch, ways, found.push(branch + ways[from]), from + 1)
    }
}

/// The branches from `from` on, each with the equations of each way, behind `found`.
pub open spec fn branches_expanded(
    branches: Seq<EquationsV>,
    ways: Seq<EquationsV>,
    found: Seq<EquationsV>,
    from: int,
) -> Seq<EquationsV>
    decreases branches.len() - from,
{
    if from >= branches.len() {
        found
    } else {
        branches_expanded(
            branches,
            ways,
            branch_expanded(branches[from], ways, found, 0),
            from + 1,
        )
    }
}

/// The branches for the pairs from `from` on, and whether one of the pairs so far was expanded.
pub open spec fn remainders_expanded(
    initial: SubstitutionV,
    remainder: Seq<(TermV, TermV)>,
    branches: Seq<EquationsV>,
    expanded: bool,
    from: int,
) -> (Seq<EquationsV>, bool)
    decreases remainder.len() - from,
{
    if from >= remainder.len() {
        (branches, expanded)
    } else {
        let pattern = substituted(remainder[from].0, initial);
        let subject = substituted(remainder[from].1, initial);
        match closed_map_expansion(pattern, subject) {
            None => remainders_expanded(
                initial,
                remainder,
                branches_expanded(branches, seq![seq![(pattern, subject)]], Seq::empty(), 0),
                expanded,
                from + 1,
            ),
            Some(ways) => remainders_expanded(
                initial,
                remainder,
                branches_expanded(branches, ways, Seq::empty(), 0),
                true,
                from + 1,
            ),
        }
    }
}

/// The branches of open pairs, where one of them is of a closed and an open map.
pub open spec fn implication_remainders(
    initial: SubstitutionV,
    remainder: Seq<(TermV, TermV)>,
) -> Option<Seq<EquationsV>> {
    match remainders_expanded(initial, remainder, seq![Seq::empty()], false, 0) {
        (branches, true) => Some(sorted::<Vec<(Term, Term)>>(branches)),
        (_, false) => None,
    }
}

fn holds_index(chosen: &Vec<usize>, index: usize) -> (result: bool)
    ensures
        result == chosen@.contains(index),
{
    let mut i: usize = 0;
    while i < chosen.len()
        invariant
            i <= chosen.len(),
            forall|k: int| 0 <= k < i ==> chosen[k] != index,
        decreases chosen.len() - i,
    {
        if chosen[i] == index {
            assert(chosen@[i as int] == index);
            return true;
        }
        i += 1;
    }
    false
}

impl<'a> ClosedMapImplicationProblem<'a> {
    fn find_entries_left(&self, chosen: &Vec<usize>) -> (result: Vec<(Term, Term)>)
        ensures
            deep(result@) == entries_left(
                self@.pattern_entries,
                chosen@,
                self@.pattern_entries.len() as int,
            ),
    {
        let entries = self.pattern_entries;
        let mut left: Vec<(Term, Term)> = Vec::new();
        let mut i: usize = 0;
        while i < entries.len()
            invariant
                i <= entries.len(),
                deep(left@) == entries_left(deep(entries@), chosen@, i as int),
            decreases entries.len() - i,
        {
            assert(deep(entries@)[i as int] == entries[i as int].deep_view());
            if !holds_index(chosen, i) {
                left.push(entries[i].duplicate());
            }
            i += 1;
        }
        left
    }

    #[verifier::spinoff_prover]
    fn equations(&self, chosen: &Vec<usize>) -> (result: Vec<(Term, Term)>)
        requires
            chosen@.len() <= self.subject_entries@.len(),
            forall|i: int|
                0 <= i < chosen@.len() ==> (#[trigger] chosen@[i]) < self.pattern_entries@.len(),
        ensures
            deep(result@) == selection_equations(self@, chosen@),
    {
        let mut equations: Vec<(Term, Term)> = Vec::new();
        let mut i: usize = 0;
        while i < chosen.len()
            invariant
                i <= chosen.len(),
                chosen@.len() <= self.subject_entries@.len(),
                forall|i: int|
                    0 <= i < chosen@.len() ==> (#[trigger] chosen@[i])
                        < self.pattern_entries@.len(),
                deep(equations@) == entry_equations(self@, chosen@, i as int),
            decreases chosen.len() - i,
        {
            let at: usize = chosen[i];
            assert(self@.subject_entries[i as int] == self.subject_entries[i as int].deep_view());
            assert(self@.pattern_entries[at as int] == self.pattern_entries[at as int].deep_view());
            let subject = &self.subject_entries[i];
            let pattern = &self.pattern_entries[at];
            equations.push((subject.0.duplicate(), pattern.0.duplicate()));
            equations.push((subject.1.duplicate(), pattern.1.duplicate()));
            i += 1;
        }
        let left = self.find_entries_left(chosen);
        equations.push(
            (
                self.subject_rest.duplicate(),
                Term::map(self.definition.duplicate(), left, None),
            ),
        );
        equations
    }

    #[verifier::spinoff_prover]
    fn enumerate(&self, chosen: &Vec<usize>, solutions: &mut Vec<Vec<(Term, Term)>>)
        requires
            chosen@.len() <= self.subject_entries@.len(),
            forall|i: int|
                0 <= i < chosen@.len() ==> (#[trigger] chosen@[i]) < self.pattern_entries@.len(),
        ensures
            deep(final(solutions)@) == enumerated(self@, chosen@, deep(old(solutions)@)),
        decreases self.subject_entries@.len() - chosen@.len(),
    {
        if chosen.len() == self.subject_entries.len() {
            solutions.push(self.equations(chosen));
            return ;
        }
        let ghost start = deep(solutions@);
        let mut i: usize = 0;
        while i < self.pattern_entries.len()
            invariant
                i <= self.pattern_entries.len(),
                chosen@.len() < self.subject_entries@.len(),
                forall|i: int|
                    0 <= i < chosen@.len() ==> (#[trigger] chosen@[i])
                        < self.pattern_entries@.len(),
                enumerated_from(self@, chosen@, start, 0) == enumerated_from(
                    self@,
                    chosen@,
                    deep(solutions@),
                    i as int,
                ),
            decreases self.pattern_entries.len() - i,
        {
            if !holds_index(chosen, i) {
                let mut next: Vec<usize> = Vec::new();
                let mut k: usize = 0;
                while k < chosen.len()
                    invariant
                        k <= chosen.len(),
                        next@ == chosen@.subrange(0, k as int),
                    decreases chosen.len() - k,
                {
                    next.push(chosen[k]);
                    assert(next@ =~= chosen@.subrange(0, k as int + 1));
                    k += 1;
                }
                next.push(i);
                assert(next@ =~= chosen@.push(i));
                self.enumerate(&next, solutions);
            }
            i += 1;
        }
    }
}

#[verifier::spinoff_prover]
fn expand_closed_map(pattern: &Term, subject: &Term) -> (result: Option<Vec<Vec<(Term, Term)>>>)
    ensures
        result.deep_view() == closed_map_expansion(pattern@, subject@),
{
    proof {
        lemma_term_view(*pattern);
        lemma_term_view(*subject);
    }
    if let Term::KMap { definition, entries, rest: None } = pattern {
        if let Term::KMap { definition: other, entries: subject_entries, rest: Some(rest) } = subject {
            if definition.equals(other) && subject_entries.len() <= entries.len() {
                let problem = ClosedMapImplicationProblem {
                    definition,
                    pattern_entries: entries,
                    subject_entries,
                    subject_rest: rest,
                };
                let none: Vec<usize> = Vec::new();
                let mut solutions: Vec<Vec<(Term, Term)>> = Vec::new();
                problem.enumerate(&none, &mut solutions);
                assert(none@ =~= Seq::<usize>::empty());
                return Some(solutions);
            }
        }
    }
    None
}

fn expand_branches(branches: &Vec<Vec<(Term, Term)>>, ways: &Vec<Vec<(Term, Term)>>) -> (result: Vec<
    Vec<(Term, Term)>,
>)
    ensures
        deep(result@) == branches_expanded(deep(branches@), deep(ways@), Seq::empty(), 0),
{
    let mut found: Vec<Vec<(Term, Term)>> = Vec::new();
    let mut i: usize = 0;
    while i < branches.len()
        invariant
            i <= branches.len(),
            branches_expanded(deep(branches@), deep(ways@), Seq::empty(), 0) == branches_expanded(
                deep(branches@),
                deep(ways@),
                deep(found@),
                i as int,
            ),
        decreases branches.len() - i,
    {
        assert(deep(branches@)[i as int] == deep(branches[i as int]@));
        expand_branch(&branches[i], ways, &mut found);
        i += 1;
    }
    found
}

fn expand_branch(
    branch: &Vec<(Term, Term)>,
    ways: &Vec<Vec<(Term, Term)>>,
    found: &mut Vec<Vec<(Term, Term)>>,
)
    ensures
        deep(final(found)@) == branch_expanded(
            deep(branch@),
            deep(ways@),
            deep(old(found)@),
            0,
        ),
{
    let ghost start = deep(found@);
    let mut i: usize = 0;
    while i < ways.len()
        invariant
            i <= ways.len(),
            branch_expanded(deep(branch@), deep(ways@), start, 0) == branch_expanded(
                deep(branch@),
                deep(ways@),
                deep(found@),
                i as int,
            ),
        decreases ways.len() - i,
    {
        assert(deep(ways@)[i as int] == deep(ways[i as int]@));
        let mut combined = branch.duplicate();
        let mut more = ways[i].duplicate();
        combined.append(&mut more);
        found.push(combined);
        i += 1;
    }
}

/// Expand open pairs in which a closed map is to equal an open one. Each branch is one choice of
/// the entries, as equations between terms.
#[verifier::spinoff_prover]
pub fn expand_closed_map_implication_remainders(
    initial: &Substitution,
    remainder: &Vec<(Term, Term)>,
) -> (result: Option<Vec<Vec<(Term, Term)>>>)
    ensures
        result.deep_view() == implication_remainders(initial@, deep(remainder@)),
{
    let mut expanded = false;
    let mut branches: Vec<Vec<(Term, Term)>> = Vec::new();
    branches.push(Vec::new());
    assert(deep(branches@) =~= seq![Seq::<(TermV, TermV)>::empty()]);
    let mut i: usize = 0;
    while i < remainder.len()
        invariant
            i <= remainder.len(),
            remainders_expanded(
                initial@,
                deep(remainder@),
                seq![Seq::<(TermV, TermV)>::empty()],
                false,
                0,
            ) == remainders_expanded(
                initial@,
                deep(remainder@),
                deep(branches@),
                expanded,
                i as int,
            ),
        decreases remainder.len() - i,
    {
        assert(deep(remainder@)[i as int] == remainder[i as int].deep_view());
        let pattern = substitute(&remainder[i].0, initial);
        let subject = substitute(&remainder[i].1, initial);
        match expand_closed_map(&pattern, &subject) {
            Some(ways) => {
                branches = expand_branches(&branches, &ways);
                expanded = true;
            },
            None => {
                let ghost expected = seq![(pattern@, subject@)];
                let mut pair: Vec<(Term, Term)> = Vec::new();
                pair.push((pattern, subject));
                assert(deep(pair@) =~= expected);
                let mut ways: Vec<Vec<(Term, Term)>> = Vec::new();
                ways.push(pair);
                assert(deep(ways@) =~= seq![expected]);
                branches = expand_branches(&branches, &ways);
            },
        }
        i += 1;
    }
    if !expanded {
        return None;
    }
    Some(into_sorted(&branches))
}

} // verus!
