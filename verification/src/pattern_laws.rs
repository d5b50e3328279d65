//! What the bindings in a pattern's constraints keep of the pattern.

use vstd::prelude::*;
use crate::application_laws::all_among;
use crate::assoc::{assoc, assoc_bound_from, assoc_from, law_bound};
use crate::construct::occurs;
use crate::matching::injected;
use crate::ops::sort_of;
use crate::index::law_extension_contains;
use crate::match_laws::{lemma_occurs_child, lemma_plain_child, plain, plain_from};
use crate::ops::{children, key_precedes, lemma_child_smaller, Keyed};
use crate::pattern::{
    binding_of, equalities_of, extracted, extracted_from, extracted_step, substitution_normalized,
    Extraction, PatternV,
};
use crate::predicate::PredicateV;
use crate::predicates::{predicate_substituted, predicates_substituted};
use crate::rebuild::with_children;
use crate::sorts::{is_subsort, SortGraphV};
use crate::substitution::{
    bound, composed, composed_from, composed_values, substituted, substituted_child,
    substituted_children, SubstitutionV,
};
use crate::substitution_laws::{lemma_values, law_composed};
use crate::term::{TermV, Variable, VariableV};

verus! {

/// Whether `term` is `other`, as it is or injected into the sort of a variable that `other` does
/// not hold.
pub open spec fn fits(
    sorts: SortGraphV,
    variable: VariableV,
    other: TermV,
    term: TermV,
) -> bool {
    !occurs(variable, other) && if sort_of(other) == variable.sort {
        term == other
    } else {
        is_subsort(sorts, sort_of(other), variable.sort) && term == injected(
            sort_of(other),
            variable.sort,
            other,
        )
    }
}

/// Whether an equality says that a variable is a term, as it is or injected into the variable's
/// sort.
pub open spec fn equates(
    sorts: SortGraphV,
    predicate: PredicateV,
    variable: VariableV,
    term: TermV,
) -> bool {
    let own = TermV::Variable(variable);
    match predicate {
        PredicateV::Equals(left, right) => (left == own && fits(sorts, variable, right, term)) || (
        right == own && fits(sorts, variable, left, term)),
        _ => false,
    }
}

/// Whether a substitution binds a variable to what it makes of a term.
pub open spec fn solves(substitution: SubstitutionV, variable: VariableV, term: TermV) -> bool {
    assoc(substitution, variable) == Some(substituted(term, substitution))
}

/// Whether a predicate is an equality that a substitution solves.
pub open spec fn solved(
    sorts: SortGraphV,
    substitution: SubstitutionV,
    predicate: PredicateV,
) -> bool {
    exists|variable: VariableV, term: TermV|
        #[trigger] equates(sorts, predicate, variable, term) && solves(substitution, variable, term)
}

/// Whether the values of a substitution have no collections in them.
pub open spec fn plain_values(substitution: SubstitutionV) -> bool {
    forall|i: int| 0 <= i < substitution.len() ==> plain((#[trigger] substitution[i]).1)
}

/// Whether the terms that are equated among predicates have no collections in them.
pub open spec fn plain_equalities(predicates: Seq<PredicateV>) -> bool {
    forall|i: int|
        0 <= i < predicates.len() && (#[trigger] predicates[i]) is Equals ==> plain(
            predicates[i]->Equals_0,
        ) && plain(predicates[i]->Equals_1)
}

proof fn lemma_binding(
    sorts: SortGraphV,
    predicate: PredicateV,
    variable: VariableV,
    term: TermV,
)
    requires
        binding_of(sorts, predicate) == Some((variable, term)),
    ensures
        equates(sorts, predicate, variable, term),
{
}

proof fn lemma_plain_all(term: TermV, from: int)
    requires
        0 <= from,
        forall|i: int| from <= i < children(term).len() ==> plain(#[trigger] children(term)[i]),
    ensures
        plain_from(term, from),
    decreases children(term).len() - from,
{
    if from < children(term).len() {
        lemma_plain_all(term, from + 1);
    }
}

proof fn lemma_plain_found(substitution: SubstitutionV, variable: VariableV, from: int)
    requires
        plain_values(substitution),
        0 <= from,
        assoc_from(substitution, variable, from) is Some,
    ensures
        plain(assoc_from(substitution, variable, from)->0),
    decreases substitution.len() - from,
{
    if from < substitution.len() && substitution[from].0 != variable {
        lemma_plain_found(substitution, variable, from + 1);
    }
}

proof fn lemma_plain_substituted(term: TermV, substitution: SubstitutionV)
    requires
        plain(term),
        plain_values(substitution),
    ensures
        plain(substituted(term, substitution)),
    decreases term,
{
    if term is Variable {
        if assoc(substitution, term->Variable_0) is Some {
            lemma_plain_found(substitution, term->Variable_0, 0);
        }
    } else {
        reveal(children);
        reveal(with_children);
        let made = substituted(term, substitution);
        assert(children(made) =~= substituted_children(term, substitution));
        assert forall|i: int| 0 <= i < children(made).len() implies plain(
            #[trigger] children(made)[i],
        ) by {
            lemma_child_smaller(term, i);
            lemma_plain_child(term, 0, i);
            assert(children(made)[i] == substituted_child(term, i, substitution));
            lemma_plain_substituted(children(term)[i], substitution);
        }
        lemma_plain_all(made, 0);
    }
}

/// What a term without a variable becomes by a substitution of that variable: itself.
proof fn lemma_untouched(term: TermV, variable: VariableV, value: TermV)
    requires
        plain(term),
        !occurs(variable, term),
    ensures
        substituted(term, seq![(variable, value)]) == term,
    decreases term,
{
    let one = seq![(variable, value)];
    if term is Variable {
        assert(one[0].0 == variable);
        reveal_with_fuel(assoc_from, 3);
    } else {
        reveal(children);
        reveal(with_children);
        let made = substituted_children(term, one);
        assert forall|i: int| 0 <= i < children(term).len() implies made[i]
            == #[trigger] children(term)[i] by {
            lemma_child_smaller(term, i);
            lemma_plain_child(term, 0, i);
            if occurs(variable, children(term)[i]) {
                lemma_occurs_child(variable, term, 0, i);
            }
            assert(made[i] == substituted_child(term, i, one));
            lemma_untouched(children(term)[i], variable, value);
        }
        assert(made =~= children(term));
    }
}

/// One more binding, which solves itself and keeps what is solved.
proof fn lemma_bound(
    found: SubstitutionV,
    variable: VariableV,
    term: TermV,
    earlier: VariableV,
    value: TermV,
)
    requires
        plain_values(found),
        plain(term),
        plain(value),
        assoc(found, variable) is None,
        !occurs(variable, substituted(term, found)),
    ensures
        ({
            let made = substituted(term, found);
            let next = bound(
                composed_values(seq![(variable, made)], found),
                variable,
                made,
            );
            &&& solves(next, variable, term)
            &&& solves(found, earlier, value) ==> solves(next, earlier, value)
            &&& plain_values(next)
        }),
{
    let made = substituted(term, found);
    let one = seq![(variable, made)];
    let values = composed_values(one, found);
    let next = bound(values, variable, made);
    assert(one[0] == (variable, made));
    reveal_with_fuel(composed_from, 3);
    assert(next == composed(one, found));
    lemma_plain_substituted(term, found);
    lemma_values(one, found, variable, 0);
    lemma_values(one, found, earlier, 0);
    law_bound::<Variable, TermV>(values, variable, made, variable);
    law_bound::<Variable, TermV>(values, variable, made, earlier);
    law_composed(term, one, found);
    law_composed(value, one, found);
    lemma_untouched(made, variable, made);
    assert(plain_values(one)) by {
        assert forall|i: int| 0 <= i < one.len() implies plain((#[trigger] one[i]).1) by {}
    }
    assert forall|i: int| 0 <= i < values.len() implies plain((#[trigger] values[i]).1) by {
        assert(plain(found[i].1));
        lemma_plain_substituted(found[i].1, one);
    }
    lemma_plain_bound(values, variable, made, 0);
}

proof fn lemma_plain_binding(
    sorts: SortGraphV,
    predicate: PredicateV,
    variable: VariableV,
    term: TermV,
)
    requires
        binding_of(sorts, predicate) == Some((variable, term)),
        plain(predicate->Equals_0),
        plain(predicate->Equals_1),
    ensures
        plain(term),
{
    if term != predicate->Equals_0 && term != predicate->Equals_1 {
        reveal(children);
        assert forall|i: int| 0 <= i < children(term).len() implies plain(
            #[trigger] children(term)[i],
        ) by {}
        lemma_plain_all(term, 0);
    }
}

proof fn lemma_plain_bound(values: SubstitutionV, variable: VariableV, term: TermV, from: int)
    requires
        plain_values(values),
        plain(term),
        0 <= from <= values.len(),
    ensures
        plain_values(assoc_bound_from::<Variable, TermV>(values, variable, term, from)),
    decreases values.len() - from,
{
    let made = assoc_bound_from::<Variable, TermV>(values, variable, term, from);
    if from >= values.len() {
        assert(forall|i: int| 0 <= i < made.len() ==> i < values.len() && made[i] == values[i]
            || (#[trigger] made[i]).1 == term);
    } else if values[from].0 == variable {
        assert(forall|i: int| 0 <= i < made.len() ==> made[i] == values[i] || (
        #[trigger] made[i]).1 == term);
    } else if key_precedes(Variable::key(variable), Variable::key(values[from].0)) {
        assert forall|i: int| 0 <= i < made.len() implies plain((#[trigger] made[i]).1) by {
            if i < from {
                assert(made[i] == values[i]);
            } else if i > from {
                assert(made[i] == values[i - 1]);
            }
        }
    } else {
        lemma_plain_bound(values, variable, term, from + 1);
    }
}

/// Whether each of the first `count` predicates is kept in an extraction, or solved by it.
pub open spec fn kept_or_solved(
    sorts: SortGraphV,
    found: Extraction,
    predicates: Seq<PredicateV>,
    count: int,
) -> bool {
    forall|i: int|
        0 <= i < count ==> found.1.contains(#[trigger] predicates[i]) || solved(
            sorts,
            found.0,
            predicates[i],
        )
}

proof fn lemma_extracted_step(
    sorts: SortGraphV,
    allowed: Option<Seq<VariableV>>,
    predicates: Seq<PredicateV>,
    found: Extraction,
    count: int,
)
    requires
        0 <= count < predicates.len(),
        plain_equalities(predicates),
        plain_values(found.0),
        kept_or_solved(sorts, found, predicates, count),
    ensures
        ({
            let next = extracted_step(sorts, allowed, found, predicates[count]);
            plain_values(next.0) && kept_or_solved(sorts, next, predicates, count + 1)
        }),
{
    let predicate = predicates[count];
    let next = extracted_step(sorts, allowed, found, predicate);
    if next == (found.0, found.1.push(predicate)) {
        assert forall|i: int| 0 <= i < count + 1 implies next.1.contains(#[trigger] predicates[i])
            || solved(sorts, next.0, predicates[i]) by {
            if i == count {
                assert(next.1[found.1.len() as int] == predicate);
            } else if found.1.contains(predicates[i]) {
                let j: int = choose|j: int| 0 <= j < found.1.len() && found.1[j] == predicates[i];
                assert(next.1[j] == predicates[i]);
            }
        }
    } else {
        let (variable, term) = binding_of(sorts, predicate)->0;
        lemma_binding(sorts, predicate, variable, term);
        lemma_plain_binding(sorts, predicate, variable, term);
        lemma_bound(found.0, variable, term, variable, term);
        assert forall|i: int| 0 <= i < count + 1 implies next.1.contains(#[trigger] predicates[i])
            || solved(sorts, next.0, predicates[i]) by {
            if i < count && !found.1.contains(predicates[i]) {
                assert(solved(sorts, found.0, predicates[i]));
                let (earlier, value) = choose|earlier: VariableV, value: TermV|
                    #[trigger] equates(sorts, predicates[i], earlier, value) && solves(
                        found.0,
                        earlier,
                        value,
                    );
                lemma_plain_equated(sorts, predicates[i], earlier, value);
                lemma_bound(found.0, variable, term, earlier, value);
            }
        }
    }
}

proof fn lemma_plain_equated(
    sorts: SortGraphV,
    predicate: PredicateV,
    variable: VariableV,
    term: TermV,
)
    requires
        equates(sorts, predicate, variable, term),
        plain(predicate->Equals_0),
        plain(predicate->Equals_1),
    ensures
        plain(term),
{
    if term != predicate->Equals_0 && term != predicate->Equals_1 {
        reveal(children);
        assert forall|i: int| 0 <= i < children(term).len() implies plain(
            #[trigger] children(term)[i],
        ) by {}
        lemma_plain_all(term, 0);
    }
}

proof fn lemma_extracted_from(
    sorts: SortGraphV,
    allowed: Option<Seq<VariableV>>,
    predicates: Seq<PredicateV>,
    found: Extraction,
    from: int,
)
    requires
        0 <= from <= predicates.len(),
        plain_equalities(predicates),
        plain_values(found.0),
        kept_or_solved(sorts, found, predicates, from),
    ensures
        kept_or_solved(
            sorts,
            extracted_from(sorts, allowed, predicates, found, from),
            predicates,
            predicates.len() as int,
        ),
    decreases predicates.len() - from,
{
    if from < predicates.len() {
        lemma_extracted_step(sorts, allowed, predicates, found, from);
        lemma_extracted_from(
            sorts,
            allowed,
            predicates,
            extracted_step(sorts, allowed, found, predicates[from]),
            from + 1,
        );
    }
}

/// An extraction loses no predicate: each is kept, or is an equality of a variable with a term
/// that the substitution solves, in that it binds the variable to what it makes of the term.
pub proof fn law_extraction_loses_nothing(
    sorts: SortGraphV,
    allowed: Option<Seq<VariableV>>,
    predicates: Seq<PredicateV>,
)
    requires
        plain_equalities(predicates),
    ensures
        ({
            let (substitution, remaining) = extracted(sorts, allowed, predicates);
            forall|i: int|
                0 <= i < predicates.len() ==> remaining.contains(#[trigger] predicates[i])
                    || solved(sorts, substitution, predicates[i])
        }),
{
    lemma_extracted_from(sorts, allowed, predicates, (Seq::empty(), Seq::empty()), 0);
}

/// Whether a substitution binds only the given variables.
pub open spec fn binds_among(variables: Seq<VariableV>, substitution: SubstitutionV) -> bool {
    forall|i: int|
        0 <= i < substitution.len() ==> variables.contains((#[trigger] substitution[i]).0)
}

proof fn lemma_nothing_invented(
    sorts: SortGraphV,
    allowed: Option<Seq<VariableV>>,
    predicates: Seq<PredicateV>,
    found: Extraction,
    from: int,
)
    requires
        0 <= from <= predicates.len(),
        all_among(found.1, predicates),
        allowed is Some ==> binds_among(allowed->0, found.0),
    ensures
        ({
            let result = extracted_from(sorts, allowed, predicates, found, from);
            &&& all_among(result.1, predicates)
            &&& allowed is Some ==> binds_among(allowed->0, result.0)
        }),
    decreases predicates.len() - from,
{
    if from < predicates.len() {
        let next = extracted_step(sorts, allowed, found, predicates[from]);
        assert(predicates.contains(predicates[from]));
        assert forall|i: int| 0 <= i < next.1.len() implies predicates.contains(
            #[trigger] next.1[i],
        ) by {
            if i < found.1.len() {
                assert(next.1[i] == found.1[i]);
            }
        }
        if let Some((variable, term)) = binding_of(sorts, predicates[from]) {
            let made = substituted(term, found.0);
            let values = composed_values(seq![(variable, made)], found.0);
            if allowed is Some && allowed->0.contains(variable) {
                assert forall|i: int| 0 <= i < values.len() implies allowed->0.contains(
                    (#[trigger] values[i]).0,
                ) by {
                    assert(allowed->0.contains(found.0[i].0));
                }
                lemma_keys_bound(allowed->0, values, variable, made, 0);
                assert(binds_among(allowed->0, bound(values, variable, made)));
            }
        }
        assert(allowed is Some ==> binds_among(allowed->0, next.0));
        lemma_nothing_invented(sorts, allowed, predicates, next, from + 1);
        assert(extracted_from(sorts, allowed, predicates, found, from) == extracted_from(
            sorts,
            allowed,
            predicates,
            next,
            from + 1,
        ));
    }
}

proof fn lemma_keys_bound(
    allowed: Seq<VariableV>,
    values: SubstitutionV,
    variable: VariableV,
    term: TermV,
    from: int,
)
    requires
        binds_among(allowed, values),
        allowed.contains(variable),
        0 <= from <= values.len(),
    ensures
        binds_among(allowed, assoc_bound_from::<Variable, TermV>(values, variable, term, from)),
    decreases values.len() - from,
{
    let made = assoc_bound_from::<Variable, TermV>(values, variable, term, from);
    if from < values.len() && values[from].0 != variable && !key_precedes(
        Variable::key(variable),
        Variable::key(values[from].0),
    ) {
        lemma_keys_bound(allowed, values, variable, term, from + 1);
    } else {
        assert forall|i: int| 0 <= i < made.len() implies allowed.contains(
            (#[trigger] made[i]).0,
        ) by {
            if i < from {
                assert(made[i] == values[i]);
            } else if i > from && made.len() == values.len() {
                assert(made[i] == values[i]);
            } else if i > from {
                assert(made[i] == values[i - 1]);
            } else {
                assert(made[i].0 == variable);
            }
        }
    }
}

/// An extraction invents nothing: what it keeps is among the predicates, and only the allowed
/// variables are bound.
pub proof fn law_extraction_invents_nothing(
    sorts: SortGraphV,
    allowed: Option<Seq<VariableV>>,
    predicates: Seq<PredicateV>,
)
    ensures
        ({
            let (substitution, remaining) = extracted(sorts, allowed, predicates);
            &&& all_among(remaining, predicates)
            &&& allowed is Some ==> binds_among(allowed->0, substitution)
        }),
{
    lemma_nothing_invented(sorts, allowed, predicates, (Seq::empty(), Seq::empty()), 0);
}

/// Whether a constraint is kept under a substitution: it stands among `kept` with the
/// substitution applied; or it is an equality of a variable, and what the substitution makes of
/// the variable's term is equated with the variable.
pub open spec fn constraint_kept(
    sorts: SortGraphV,
    substitution: SubstitutionV,
    constraint: PredicateV,
    kept: Seq<PredicateV>,
) -> bool {
    kept.contains(predicate_substituted(constraint, substitution)) || exists|
        variable: VariableV,
        term: TermV,
    |
        #[trigger] equates(sorts, constraint, variable, term) && kept.contains(
            PredicateV::Equals(TermV::Variable(variable), substituted(term, substitution)),
        )
}

/// To apply the bindings in a pattern's constraints keeps the pattern: there is a substitution
/// that the term is put under and under which every constraint is kept. Where the constraints bind
/// nothing the pattern stays as it is.
pub proof fn law_bindings_keep_the_pattern(sorts: SortGraphV, pattern: PatternV)
    requires
        plain_equalities(pattern.constraints),
    ensures
        ({
            let made = substitution_normalized(sorts, pattern);
            made == pattern || exists|substitution: SubstitutionV|
                made.term == #[trigger] substituted(pattern.term, substitution) && forall|i: int|
                    0 <= i < pattern.constraints.len() ==> constraint_kept(
                        sorts,
                        substitution,
                        #[trigger] pattern.constraints[i],
                        made.constraints,
                    )
        }),
{
    let (substitution, remaining) = extracted(sorts, None, pattern.constraints);
    let made = substitution_normalized(sorts, pattern);
    if made != pattern {
        law_extraction_loses_nothing(sorts, None, pattern.constraints);
        let equalities = equalities_of(substitution);
        let others = predicates_substituted(remaining, substitution);
        assert forall|i: int| 0 <= i < pattern.constraints.len() implies constraint_kept(
            sorts,
            substitution,
            #[trigger] pattern.constraints[i],
            made.constraints,
        ) by {
            let constraint = pattern.constraints[i];
            if remaining.contains(constraint) {
                let j: int = choose|j: int| 0 <= j < remaining.len() && remaining[j] == constraint;
                let now = predicate_substituted(constraint, substitution);
                assert(others[j] == now);
                law_extension_contains(equalities, others, 0, now);
            } else {
                let (variable, term) = choose|variable: VariableV, term: TermV|
                    #[trigger] equates(sorts, constraint, variable, term) && solves(
                        substitution,
                        variable,
                        term,
                    );
                let j = lemma_assoc_at(substitution, variable, 0);
                let now = PredicateV::Equals(
                    TermV::Variable(variable),
                    substituted(term, substitution),
                );
                assert(equalities[j] == now);
                law_extension_contains(equalities, others, 0, now);
            }
        }
        assert(made.term == substituted(pattern.term, substitution));
    }
}

proof fn lemma_assoc_at(substitution: SubstitutionV, variable: VariableV, from: int) -> (at: int)
    requires
        0 <= from,
        assoc_from(substitution, variable, from) is Some,
    ensures
        0 <= at < substitution.len(),
        substitution[at] == (variable, assoc_from(substitution, variable, from)->0),
    decreases substitution.len() - from,
{
    if from < substitution.len() && substitution[from].0 != variable {
        lemma_assoc_at(substitution, variable, from + 1)
    } else {
        from
    }
}

} // verus!
