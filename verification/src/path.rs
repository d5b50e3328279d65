//! Replacements that equalities among the known predicates stand for.

use vstd::prelude::*;
use crate::construct::occurs_in;
use crate::construct::occurs;
use crate::model::{deep, group_deep, Value};
use crate::ops::{children, lemma_child_smaller};
use crate::predicate::{lemma_predicate_view, Predicate, PredicateV};
use crate::rebuild::with_children;
use crate::substitution::{compose, composed, substitute, substituted, Substitution, SubstitutionV};
use crate::term::{lemma_term_view, simple_sort, Term, TermV, Variable};

verus! {

broadcast use group_deep;

/// Variables to be substituted, and terms to be replaced.
#[derive(Debug, PartialEq, Eq)]
pub struct PathConditionReplacements {
    pub substitution: Substitution,
    pub replacements: Vec<(Term, Term)>,
}

/// The view of [`PathConditionReplacements`].
pub struct PathConditionReplacementsV {
    pub substitution: SubstitutionV,
    pub replacements: Seq<(TermV, TermV)>,
}

impl View for PathConditionReplacements {
    type V = PathConditionReplacementsV;

    open spec fn view(&self) -> PathConditionReplacementsV {
        PathConditionReplacementsV {
            substitution: self.substitution@,
            replacements: deep(self.replacements@),
        }
    }
}

impl DeepView for PathConditionReplacements {
    type V = PathConditionReplacementsV;

    open spec fn deep_view(&self) -> PathConditionReplacementsV {
        self@
    }
}

impl Value for PathConditionReplacements {
    fn duplicate(&self) -> (copy: Self) {
        PathConditionReplacements {
            substitution: self.substitution.duplicate(),
            replacements: self.replacements.duplicate(),
        }
    }

    fn equals(&self, other: &Self) -> (same: bool) {
        self.substitution.equals(&other.substitution)
            && self.replacements.equals(&other.replacements)
    }
}

/// The equalities in `predicates` from `from` on, also inside conjunctions, behind `found`.
pub open spec fn conjunctive_equalities(
    predicates: Seq<PredicateV>,
    found: Seq<(TermV, TermV)>,
    from: int,
) -> Seq<(TermV, TermV)>
    decreases predicates, predicates.len() - from,
{
    if 0 <= from < predicates.len() {
        let next = match predicates[from] {
            PredicateV::Equals(left, right) => found.push((left, right)),
            PredicateV::And(inner) => {
                proof {
                    assert(decreases_to!(predicates => predicates[from]));
                    assert(decreases_to!(predicates[from] => predicates[from]->And_0));
                }
                conjunctive_equalities(inner, found, 0)
            },
            _ => found,
        };
        conjunctive_equalities(predicates, next, from + 1)
    } else {
        found
    }
}

/// Collect the equalities in `predicates`, also inside conjunctions.
pub(crate) fn collect_conjunctive_equalities(
    predicates: &Vec<Predicate>,
    found: &mut Vec<(Term, Term)>,
)
    ensures
        deep(final(found)@) == conjunctive_equalities(deep(predicates@), deep(old(found)@), 0),
    decreases predicates,
{
    let mut i: usize = 0;
    while i < predicates.len()
        invariant
            i <= predicates.len(),
            conjunctive_equalities(deep(predicates@), deep(old(found)@), 0)
                == conjunctive_equalities(deep(predicates@), deep(found@), i as int),
        decreases predicates.len() - i,
    {
        proof {
            assert(deep(predicates@)[i as int] == predicates[i as int]@);
            lemma_predicate_view(predicates[i as int]);
        }
        match &predicates[i] {
            Predicate::Equals(left, right) => {
                found.push((left.duplicate(), right.duplicate()));
            },
            Predicate::And(inner) => {
                collect_conjunctive_equalities(inner, found);
            },
            _ => {},
        }
        i += 1;
    }
}

/// Whether `term` is a domain value of sort Int or Bool.
pub open spec fn scalar_value(term: TermV) -> bool {
    term is DomainValue && (term->DomainValue_sort == simple_sort("SortInt"@)
        || term->DomainValue_sort == simple_sort("SortBool"@))
}

fn is_scalar_domain_value(term: &Term) -> (result: bool)
    ensures
        result == scalar_value(term@),
{
    proof {
        lemma_term_view(*term);
    }
    match term {
        Term::DomainValue { sort, .. } => sort.is_simple("SortInt") || sort.is_simple("SortBool"),
        _ => false,
    }
}

/// What becomes of `found` by one more equality: a variable on either side is substituted, unless
/// its term would hold it; a domain value replaces another term.
pub open spec fn replacements_step(
    found: PathConditionReplacementsV,
    left: TermV,
    right: TermV,
) -> PathConditionReplacementsV {
    if left is Variable || right is Variable {
        let (variable, other) = if left is Variable {
            (left->Variable_0, right)
        } else {
            (right->Variable_0, left)
        };
        let replacement = substituted(other, found.substitution);
        if occurs(variable, replacement) {
            found
        } else {
            PathConditionReplacementsV {
                substitution: composed(seq![(variable, replacement)], found.substitution),
                ..found
            }
        }
    } else if scalar_value(left) {
        PathConditionReplacementsV { replacements: found.replacements.push((right, left)), ..found }
    } else if scalar_value(right) {
        PathConditionReplacementsV { replacements: found.replacements.push((left, right)), ..found }
    } else {
        found
    }
}

/// What becomes of `found` by the equalities from `from` on.
pub open spec fn replacements_from(
    equalities: Seq<(TermV, TermV)>,
    found: PathConditionReplacementsV,
    from: int,
) -> PathConditionReplacementsV
    decreases equalities.len() - from,
{
    if from >= equalities.len() {
        found
    } else {
        replacements_from(
            equalities,
            replacements_step(found, equalities[from].0, equalities[from].1),
            from + 1,
        )
    }
}

/// The replacements that `equalities` stand for.
pub open spec fn replacements_of(equalities: Seq<(TermV, TermV)>) -> PathConditionReplacementsV {
    let found = replacements_from(
        equalities,
        PathConditionReplacementsV { substitution: Seq::empty(), replacements: Seq::empty() },
        0,
    );
    PathConditionReplacementsV {
        substitution: found.substitution,
        replacements: Seq::new(
            found.replacements.len(),
            |i: int|
                (
                    substituted(found.replacements[i].0, found.substitution),
                    substituted(found.replacements[i].1, found.substitution),
                ),
        ),
    }
}

/// What replaces `term` among the replacements from `from` on.
pub open spec fn replaced_from(
    term: TermV,
    replacements: Seq<(TermV, TermV)>,
    from: int,
) -> TermV
    decreases replacements.len() - from,
{
    if from >= replacements.len() {
        term
    } else if replacements[from].0 == term {
        replacements[from].1
    } else {
        replaced_from(term, replacements, from + 1)
    }
}

/// `term` with its subterms replaced, the innermost first.
pub open spec fn replaced_bottom_up(term: TermV, replacements: Seq<(TermV, TermV)>) -> TermV
    decreases term, 2int,
{
    replaced_from(
        if term is Variable || term is DomainValue {
            term
        } else {
            with_children(term, replaced_children(term, replacements))
        },
        replacements,
        0,
    )
}

/// The children with their subterms replaced.
pub open spec fn replaced_children(
    term: TermV,
    replacements: Seq<(TermV, TermV)>,
) -> Seq<TermV>
    decreases term, 1int,
{
    Seq::new(
        children(term).len(),
        |i: int|
            if 0 <= i < children(term).len() {
                replaced_child(term, i, replacements)
            } else {
                arbitrary()
            },
    )
}

/// The child at position `i` with its subterms replaced.
pub open spec fn replaced_child(
    term: TermV,
    i: int,
    replacements: Seq<(TermV, TermV)>,
) -> TermV
    decreases term, 0int,
        when 0 <= i < children(term).len()
{
    proof {
        lemma_child_smaller(term, i);
    }
    replaced_bottom_up(children(term)[i], replacements)
}

/// `term` after the substitution and the replacements.
pub open spec fn path_applied(path: PathConditionReplacementsV, term: TermV) -> TermV {
    replaced_bottom_up(substituted(term, path.substitution), path.replacements)
}

fn replace_one(term: Term, replacements: &Vec<(Term, Term)>) -> (result: Term)
    ensures
        result@ == replaced_from(term@, deep(replacements@), 0),
{
    let mut i: usize = 0;
    while i < replacements.len()
        invariant
            i <= replacements.len(),
            replaced_from(term@, deep(replacements@), 0) == replaced_from(
                term@,
                deep(replacements@),
                i as int,
            ),
        decreases replacements.len() - i,
    {
        assert(deep(replacements@)[i as int] == (
            replacements[i as int].0@,
            replacements[i as int].1@,
        ));
        if replacements[i].0.equals(&term) {
            return replacements[i].1.duplicate();
        }
        i += 1;
    }
    term
}

/// Replace the subterms of `term`, the innermost first.
pub(crate) fn replace_terms_bottom_up(term: &Term, replacements: &Vec<(Term, Term)>) -> (result:
    Term)
    ensures
        result@ == replaced_bottom_up(term@, deep(replacements@)),
    decreases term@,
{
    proof {
        lemma_term_view(*term);
    }
    if matches!(term, Term::Variable(_) | Term::DomainValue { .. }) {
        return replace_one(term.duplicate(), replacements);
    }
    let kids: Vec<&Term> = term.children();
    let mut result: Vec<Term> = Vec::new();
    let mut i: usize = 0;
    while i < kids.len()
        invariant
            i <= kids.len(),
            deep(kids@) == children(term@),
            result.len() == i,
            forall|j: int|
                0 <= j < i ==> (#[trigger] result[j])@ == replaced_child(
                    term@,
                    j,
                    deep(replacements@),
                ),
        decreases kids.len() - i,
    {
        proof {
            assert(children(term@)[i as int] == kids[i as int]@);
            lemma_child_smaller(term@, i as int);
        }
        result.push(replace_terms_bottom_up(kids[i], replacements));
        i += 1;
    }
    assert(deep(result@) =~= replaced_children(term@, deep(replacements@)));
    replace_one(term.with_children(result), replacements)
}

impl PathConditionReplacements {
    fn add(&mut self, left: &Term, right: &Term)
        ensures
            final(self)@ == replacements_step(old(self)@, left@, right@),
    {
        proof {
            lemma_term_view(*left);
            lemma_term_view(*right);
        }
        let binding: Option<(&Variable, &Term)> = match (left, right) {
            (Term::Variable(variable), _) => Some((variable, right)),
            (_, Term::Variable(variable)) => Some((variable, left)),
            _ => None,
        };
        if let Some((variable, other)) = binding {
            let replacement = substitute(other, &self.substitution);
            if !occurs_in(variable, &replacement) {
                let single = Substitution::singleton(variable.duplicate(), replacement);
                self.substitution = compose(&single, &self.substitution);
            }
        } else if is_scalar_domain_value(left) {
            self.replacements.push((right.duplicate(), left.duplicate()));
        } else if is_scalar_domain_value(right) {
            self.replacements.push((left.duplicate(), right.duplicate()));
        }
    }

    /// The replacements that `equalities` stand for.
    pub(crate) fn from_equalities(equalities: &Vec<(Term, Term)>) -> (result: Self)
        ensures
            result@ == replacements_of(deep(equalities@)),
    {
        let mut found = PathConditionReplacements {
            substitution: Substitution::new(),
            replacements: Vec::new(),
        };
        let ghost start = found@;
        let mut i: usize = 0;
        while i < equalities.len()
            invariant
                i <= equalities.len(),
                replacements_from(deep(equalities@), start, 0) == replacements_from(
                    deep(equalities@),
                    found@,
                    i as int,
                ),
            decreases equalities.len() - i,
        {
            assert(deep(equalities@)[i as int] == (
                equalities[i as int].0@,
                equalities[i as int].1@,
            ));
            found.add(&equalities[i].0, &equalities[i].1);
            i += 1;
        }
        let mut replacements: Vec<(Term, Term)> = Vec::new();
        let mut k: usize = 0;
        while k < found.replacements.len()
            invariant
                k <= found.replacements.len(),
                replacements.len() == k,
                forall|j: int|
                    0 <= j < k ==> (#[trigger] replacements[j]).0@ == substituted(
                        found.replacements[j].0@,
                        found.substitution@,
                    ) && replacements[j].1@ == substituted(
                        found.replacements[j].1@,
                        found.substitution@,
                    ),
            decreases found.replacements.len() - k,
        {
            replacements.push(
                (
                    substitute(&found.replacements[k].0, &found.substitution),
                    substitute(&found.replacements[k].1, &found.substitution),
                ),
            );
            k += 1;
        }
        let result = PathConditionReplacements { substitution: found.substitution, replacements };
        assert(result@.replacements =~= replacements_of(deep(equalities@)).replacements);
        result
    }

    /// The replacements that the equalities in `predicates` stand for.
    pub(crate) fn new(predicates: &Vec<Predicate>) -> (result: Self)
        ensures
            result@ == replacements_of(
                conjunctive_equalities(deep(predicates@), Seq::empty(), 0),
            ),
    {
        let mut equalities: Vec<(Term, Term)> = Vec::new();
        collect_conjunctive_equalities(predicates, &mut equalities);
        PathConditionReplacements::from_equalities(&equalities)
    }

    /// Apply the substitution and the replacements.
    pub(crate) fn apply(&self, term: &Term) -> (result: Term)
        ensures
            result@ == path_applied(self@, term@),
    {
        let term = substitute(term, &self.substitution);
        replace_terms_bottom_up(&term, &self.replacements)
    }
}

} // verus!
