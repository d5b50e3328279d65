//! Substitutions of terms for variables.

use vstd::prelude::*;
use crate::assoc::{assoc, assoc_bound, assoc_get, assoc_insert};
use crate::model::{deep, group_deep, Value};
use crate::ops::{children, lemma_child_smaller};
use crate::rebuild::with_children;
use crate::term::{lemma_term_view, Term, TermV, Variable, VariableV};

verus! {

broadcast use group_deep;

/// Bindings of variables to terms, in the order of the variables.
#[derive(Debug, PartialEq, Eq)]
pub struct Substitution {
    pub bindings: Vec<(Variable, Term)>,
}

/// The view of a [`Substitution`].
pub type SubstitutionV = Seq<(VariableV, TermV)>;

impl View for Substitution {
    type V = SubstitutionV;

    open spec fn view(&self) -> SubstitutionV {
        deep(self.bindings@)
    }
}

impl DeepView for Substitution {
    type V = SubstitutionV;

    open spec fn deep_view(&self) -> SubstitutionV {
        self@
    }
}

impl Value for Substitution {
    fn duplicate(&self) -> (copy: Self) {
        Substitution { bindings: self.bindings.duplicate() }
    }

    fn equals(&self, other: &Self) -> (same: bool) {
        self.bindings.equals(&other.bindings)
    }
}

/// `substitution` with `variable` bound to `term`, in place of what it was bound to.
pub open spec fn bound(
    substitution: SubstitutionV,
    variable: VariableV,
    term: TermV,
) -> SubstitutionV {
    assoc_bound::<Variable, TermV>(substitution, variable, term)
}

impl Substitution {
    /// A substitution that binds nothing.
    pub fn new() -> (result: Self)
        ensures
            result@ == SubstitutionV::empty(),
    {
        Substitution { bindings: Vec::new() }
    }

    /// Whether nothing is bound.
    pub fn is_empty(&self) -> (result: bool)
        ensures
            result == (self@.len() == 0),
    {
        self.bindings.len() == 0
    }

    /// What `variable` is bound to.
    pub fn get(&self, variable: &Variable) -> (result: Option<&Term>)
        ensures
            result.deep_view() == assoc(self@, variable@),
    {
        assoc_get(&self.bindings, variable)
    }

    /// Bind `variable` to `term`, in place of what it was bound to.
    pub fn insert(&mut self, variable: Variable, term: Term)
        ensures
            final(self)@ == bound(old(self)@, variable@, term@),
    {
        assoc_insert(&mut self.bindings, variable, term);
    }

    /// A substitution that binds one variable.
    pub fn singleton(variable: Variable, term: Term) -> (result: Self)
        ensures
            result@ == seq![(variable@, term@)],
    {
        let mut bindings: Vec<(Variable, Term)> = Vec::new();
        bindings.push((variable, term));
        let result = Substitution { bindings };
        assert(result@ =~= seq![(variable@, term@)]);
        result
    }
}

/// `term` with every variable that is bound replaced by its term, in normal form.
pub open spec fn substituted(term: TermV, substitution: SubstitutionV) -> TermV
    decreases term, 2int,
{
    match term {
        TermV::Variable(variable) => match assoc(substitution, variable) {
            Some(replacement) => replacement,
            None => term,
        },
        _ => with_children(term, substituted_children(term, substitution)),
    }
}

/// The children after the substitution.
pub open spec fn substituted_children(term: TermV, substitution: SubstitutionV) -> Seq<TermV>
    decreases term, 1int,
{
    Seq::new(
        children(term).len(),
        |i: int|
            if 0 <= i < children(term).len() {
                substituted_child(term, i, substitution)
            } else {
                arbitrary()
            },
    )
}

/// The child at position `i` after the substitution.
pub open spec fn substituted_child(term: TermV, i: int, substitution: SubstitutionV) -> TermV
    decreases term, 0int,
        when 0 <= i < children(term).len()
{
    proof {
        lemma_child_smaller(term, i);
    }
    substituted(children(term)[i], substitution)
}

/// `term` with every variable that is bound replaced by its term, in normal form.
pub fn substitute(term: &Term, substitution: &Substitution) -> (result: Term)
    ensures
        result@ == substituted(term@, substitution@),
    decreases term@,
{
    proof {
        lemma_term_view(*term);
    }
    if let Term::Variable(variable) = term {
        return match substitution.get(variable) {
            Some(replacement) => replacement.duplicate(),
            None => term.duplicate(),
        };
    }
    let kids: Vec<&Term> = term.children();
    let mut result: Vec<Term> = Vec::new();
    let mut i: usize = 0;
    while i < kids.len()
        invariant
            i <= kids.len(),
            deep(kids@) == children(term@),
            result.len() == i,
            forall|j: int|
                0 <= j < i ==> (#[trigger] result[j])@ == substituted_child(
                    term@,
                    j,
                    substitution@,
                ),
        decreases kids.len() - i,
    {
        proof {
            assert(children(term@)[i as int] == kids[i as int]@);
            lemma_child_smaller(term@, i as int);
        }
        result.push(substitute(kids[i], substitution));
        i += 1;
    }
    assert(deep(result@) =~= substituted_children(term@, substitution@));
    term.with_children(result)
}

/// The bindings of `old` with `new` applied to their terms.
pub open spec fn composed_values(new: SubstitutionV, old: SubstitutionV) -> SubstitutionV {
    Seq::new(old.len(), |i: int| (old[i].0, substituted(old[i].1, new)))
}

/// `found` with the bindings of `new` from `from` on for variables that `old` does not bind.
pub open spec fn composed_from(
    new: SubstitutionV,
    old: SubstitutionV,
    found: SubstitutionV,
    from: int,
) -> SubstitutionV
    decreases new.len() - from,
{
    if from >= new.len() {
        found
    } else if assoc(old, new[from].0) is Some {
        composed_from(new, old, found, from + 1)
    } else {
        composed_from(new, old, bound(found, new[from].0, new[from].1), from + 1)
    }
}

/// The substitution that does `old` first and then `new`.
pub open spec fn composed(new: SubstitutionV, old: SubstitutionV) -> SubstitutionV {
    composed_from(new, old, composed_values(new, old), 0)
}

/// The bindings of `old` with `new` applied to their terms.
pub fn substitute_values(new: &Substitution, old: &Substitution) -> (result: Substitution)
    ensures
        result@ == composed_values(new@, old@),
{
    let mut bindings: Vec<(Variable, Term)> = Vec::new();
    let mut i: usize = 0;
    while i < old.bindings.len()
        invariant
            i <= old.bindings.len(),
            bindings.len() == i,
            forall|j: int|
                0 <= j < i ==> (#[trigger] bindings[j]).0@ == old.bindings[j].0@ && bindings[j].1@
                    == substituted(old.bindings[j].1@, new@),
        decreases old.bindings.len() - i,
    {
        bindings.push(
            (old.bindings[i].0.duplicate(), substitute(&old.bindings[i].1, new)),
        );
        i += 1;
    }
    let result = Substitution { bindings };
    assert(result@ =~= composed_values(new@, old@));
    result
}

/// The substitution that does `old` first and then `new`.
pub fn compose(new: &Substitution, old: &Substitution) -> (result: Substitution)
    ensures
        result@ == composed(new@, old@),
{
    let mut result = substitute_values(new, old);
    let mut i: usize = 0;
    while i < new.bindings.len()
        invariant
            i <= new.bindings.len(),
            composed_from(new@, old@, result@, i as int) == composed(new@, old@),
        decreases new.bindings.len() - i,
    {
        assert(new@[i as int] == (new.bindings[i as int].0@, new.bindings[i as int].1@));
        if old.get(&new.bindings[i].0).is_none() {
            result.insert(new.bindings[i].0.duplicate(), new.bindings[i].1.duplicate());
        }
        i += 1;
    }
    result
}

} // verus!
