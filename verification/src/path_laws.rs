//! What replacements by known equalities keep of a term.

use vstd::prelude::*;
use crate::assoc::{assoc, assoc_bound_from, assoc_from};
use crate::ops::{children, key_precedes, lemma_child_smaller, Keyed};
use crate::path::{
    conjunctive_equalities, path_applied, replaced_bottom_up, replaced_child, replaced_children,
    replaced_from, replacements_from, replacements_of, replacements_step,
    PathConditionReplacementsV,
};
use crate::predicate::PredicateV;
use crate::rebuild::with_children;
use crate::substitution::{
    composed, composed_from, composed_values, substituted, substituted_child, substituted_children,
    SubstitutionV,
};
use crate::term::{TermV, Variable, VariableV};
use crate::value_laws::{all_hold, value, Meaning};

verus! {

/// Which terms are equal.
pub type Equality = spec_fn(TermV, TermV) -> bool;

/// Whether terms with equal children are equal.
pub open spec fn builds_up(equal: Equality, term: TermV, parts: Seq<TermV>) -> bool {
    !(term is Variable) && parts.len() == children(term).len() && (forall|i: int|
        0 <= i < parts.len() ==> equal(#[trigger] parts[i], children(term)[i])) ==> equal(
        with_children(term, parts),
        term,
    )
}

/// Whether a relation is an equality of terms: an equivalence, in which terms with equal children
/// are equal.
pub open spec fn is_equality(equal: Equality) -> bool {
    &&& forall|a: TermV| #[trigger] equal(a, a)
    &&& forall|a: TermV, b: TermV| #[trigger] equal(a, b) ==> equal(b, a)
    &&& forall|a: TermV, b: TermV, c: TermV|
        #![trigger equal(a, b), equal(b, c)]
        equal(a, b) && equal(b, c) ==> equal(a, c)
    &&& forall|term: TermV, parts: Seq<TermV>| #[trigger] builds_up(equal, term, parts)
}

/// Whether a substitution binds variables to what they are equal to.
pub open spec fn binds_equal(equal: Equality, substitution: SubstitutionV) -> bool {
    forall|i: int|
        0 <= i < substitution.len() ==> equal(
            (#[trigger] substitution[i]).1,
            TermV::Variable(substitution[i].0),
        )
}

/// Whether pairs are pairs of equal terms.
pub open spec fn all_equal(equal: Equality, pairs: Seq<(TermV, TermV)>) -> bool {
    forall|i: int| 0 <= i < pairs.len() ==> equal((#[trigger] pairs[i]).0, pairs[i].1)
}

proof fn lemma_found_equal(
    equal: Equality,
    substitution: SubstitutionV,
    variable: VariableV,
    from: int,
)
    requires
        binds_equal(equal, substitution),
        0 <= from,
        assoc_from(substitution, variable, from) is Some,
    ensures
        equal(assoc_from(substitution, variable, from)->0, TermV::Variable(variable)),
    decreases substitution.len() - from,
{
    if from < substitution.len() && substitution[from].0 != variable {
        lemma_found_equal(equal, substitution, variable, from + 1);
    } else {
        assert(equal(substitution[from].1, TermV::Variable(substitution[from].0)));
    }
}

/// A substitution of variables by what they are equal to keeps a term up to equality.
pub proof fn law_equal_substitution(equal: Equality, substitution: SubstitutionV, term: TermV)
    requires
        is_equality(equal),
        binds_equal(equal, substitution),
    ensures
        equal(substituted(term, substitution), term),
    decreases term,
{
    if term is Variable {
        if assoc(substitution, term->Variable_0) is Some {
            lemma_found_equal(equal, substitution, term->Variable_0, 0);
        } else {
            assert(equal(term, term));
        }
    } else {
        let parts = substituted_children(term, substitution);
        assert forall|i: int| 0 <= i < parts.len() implies equal(
            #[trigger] parts[i],
            children(term)[i],
        ) by {
            lemma_child_smaller(term, i);
            assert(parts[i] == substituted_child(term, i, substitution));
            law_equal_substitution(equal, substitution, children(term)[i]);
        }
        assert(builds_up(equal, term, parts));
    }
}

proof fn lemma_replaced_equal(
    equal: Equality,
    replacements: Seq<(TermV, TermV)>,
    term: TermV,
    from: int,
)
    requires
        is_equality(equal),
        all_equal(equal, replacements),
        0 <= from,
    ensures
        equal(replaced_from(term, replacements, from), term),
    decreases replacements.len() - from,
{
    if from < replacements.len() && replacements[from].0 != term {
        lemma_replaced_equal(equal, replacements, term, from + 1);
    } else if from < replacements.len() {
        assert(equal(replacements[from].0, replacements[from].1));
    } else {
        assert(equal(term, term));
    }
}

proof fn lemma_bottom_up_equal(
    equal: Equality,
    replacements: Seq<(TermV, TermV)>,
    term: TermV,
)
    requires
        is_equality(equal),
        all_equal(equal, replacements),
    ensures
        equal(replaced_bottom_up(term, replacements), term),
    decreases term,
{
    if term is Variable || term is DomainValue {
        lemma_replaced_equal(equal, replacements, term, 0);
    } else {
        let parts = replaced_children(term, replacements);
        assert forall|i: int| 0 <= i < parts.len() implies equal(
            #[trigger] parts[i],
            children(term)[i],
        ) by {
            lemma_child_smaller(term, i);
            assert(parts[i] == replaced_child(term, i, replacements));
            lemma_bottom_up_equal(equal, replacements, children(term)[i]);
        }
        assert(builds_up(equal, term, parts));
        let inner = with_children(term, parts);
        lemma_replaced_equal(equal, replacements, inner, 0);
        assert(equal(replaced_from(inner, replacements, 0), inner));
        assert(equal(inner, term));
    }
}

proof fn lemma_bound_equal(
    equal: Equality,
    values: SubstitutionV,
    variable: VariableV,
    term: TermV,
    from: int,
)
    requires
        binds_equal(equal, values),
        equal(term, TermV::Variable(variable)),
        0 <= from <= values.len(),
    ensures
        binds_equal(equal, assoc_bound_from::<Variable, TermV>(values, variable, term, from)),
    decreases values.len() - from,
{
    let made = assoc_bound_from::<Variable, TermV>(values, variable, term, from);
    if from < values.len() && values[from].0 != variable && !key_precedes(
        Variable::key(variable),
        Variable::key(values[from].0),
    ) {
        lemma_bound_equal(equal, values, variable, term, from + 1);
    } else {
        assert forall|i: int| 0 <= i < made.len() implies equal(
            (#[trigger] made[i]).1,
            TermV::Variable(made[i].0),
        ) by {
            if i < from {
                assert(made[i] == values[i]);
            } else if i > from && made.len() == values.len() {
                assert(made[i] == values[i]);
            } else if i > from {
                assert(made[i] == values[i - 1]);
            } else {
                assert(made[i] == (variable, term));
            }
        }
    }
}

proof fn lemma_composed_equal(
    equal: Equality,
    variable: VariableV,
    term: TermV,
    found: SubstitutionV,
)
    requires
        is_equality(equal),
        binds_equal(equal, found),
        equal(term, TermV::Variable(variable)),
    ensures
        binds_equal(equal, composed(seq![(variable, term)], found)),
{
    let one = seq![(variable, term)];
    assert(one[0] == (variable, term));
    assert(binds_equal(equal, one)) by {
        assert forall|i: int| 0 <= i < one.len() implies equal(
            (#[trigger] one[i]).1,
            TermV::Variable(one[i].0),
        ) by {}
    }
    let values = composed_values(one, found);
    assert forall|i: int| 0 <= i < values.len() implies equal(
        (#[trigger] values[i]).1,
        TermV::Variable(values[i].0),
    ) by {
        law_equal_substitution(equal, one, found[i].1);
        assert(equal(values[i].1, found[i].1));
        assert(equal(found[i].1, TermV::Variable(found[i].0)));
    }
    lemma_bound_equal(equal, values, variable, term, 0);
    reveal_with_fuel(composed_from, 3);
}

proof fn lemma_step_equal(
    equal: Equality,
    found: PathConditionReplacementsV,
    left: TermV,
    right: TermV,
)
    requires
        is_equality(equal),
        binds_equal(equal, found.substitution),
        all_equal(equal, found.replacements),
        equal(left, right),
    ensures
        binds_equal(equal, replacements_step(found, left, right).substitution),
        all_equal(equal, replacements_step(found, left, right).replacements),
{
    assert(equal(right, left));
    if left is Variable || right is Variable {
        let (own, other) = if left is Variable {
            (left, right)
        } else {
            (right, left)
        };
        let variable = own->Variable_0;
        let value = substituted(other, found.substitution);
        law_equal_substitution(equal, found.substitution, other);
        assert(equal(value, other));
        assert(equal(other, own));
        assert(own == TermV::Variable(variable));
        lemma_composed_equal(equal, variable, value, found.substitution);
    } else {
        let next = replacements_step(found, left, right).replacements;
        assert forall|i: int| 0 <= i < next.len() implies equal(
            (#[trigger] next[i]).0,
            next[i].1,
        ) by {
            if i < found.replacements.len() {
                assert(next[i] == found.replacements[i]);
            }
        }
    }
}

proof fn lemma_steps_equal(
    equal: Equality,
    equalities: Seq<(TermV, TermV)>,
    found: PathConditionReplacementsV,
    from: int,
)
    requires
        is_equality(equal),
        all_equal(equal, equalities),
        binds_equal(equal, found.substitution),
        all_equal(equal, found.replacements),
        0 <= from,
    ensures
        binds_equal(equal, replacements_from(equalities, found, from).substitution),
        all_equal(equal, replacements_from(equalities, found, from).replacements),
    decreases equalities.len() - from,
{
    if from < equalities.len() {
        let (left, right) = equalities[from];
        assert(equal(equalities[from].0, equalities[from].1));
        lemma_step_equal(equal, found, left, right);
        lemma_steps_equal(equal, equalities, replacements_step(found, left, right), from + 1);
    }
}

/// A term with the replacements that equalities stand for is equal to the term, in every equality
/// in which these equalities hold.
pub proof fn law_replacements_keep_terms_equal(
    equal: Equality,
    equalities: Seq<(TermV, TermV)>,
    term: TermV,
)
    requires
        is_equality(equal),
        all_equal(equal, equalities),
    ensures
        equal(path_applied(replacements_of(equalities), term), term),
{
    let none = PathConditionReplacementsV {
        substitution: Seq::empty(),
        replacements: Seq::empty(),
    };
    lemma_steps_equal(equal, equalities, none, 0);
    let found = replacements_from(equalities, none, 0);
    let path = replacements_of(equalities);
    assert forall|i: int| 0 <= i < path.replacements.len() implies equal(
        (#[trigger] path.replacements[i]).0,
        path.replacements[i].1,
    ) by {
        let (before, behind) = found.replacements[i];
        assert(equal(found.replacements[i].0, found.replacements[i].1));
        law_equal_substitution(equal, found.substitution, before);
        law_equal_substitution(equal, found.substitution, behind);
        assert(equal(behind, substituted(behind, found.substitution)));
        assert(equal(substituted(before, found.substitution), behind));
    }
    let inner = substituted(term, path.substitution);
    law_equal_substitution(equal, path.substitution, term);
    lemma_bottom_up_equal(equal, path.replacements, inner);
    assert(equal(path_applied(path, term), inner));
}

/// Whether pairs are pairs of terms whose equality holds.
pub open spec fn equalities_hold(pairs: Seq<(TermV, TermV)>, meaning: Meaning) -> bool {
    forall|i: int|
        0 <= i < pairs.len() ==> meaning(
            PredicateV::Equals((#[trigger] pairs[i]).0, pairs[i].1),
        )
}

/// Where predicates hold, the equalities that are found in them hold.
pub proof fn law_equalities_follow(
    predicates: Seq<PredicateV>,
    found: Seq<(TermV, TermV)>,
    from: int,
    meaning: Meaning,
)
    requires
        0 <= from <= predicates.len(),
        all_hold(predicates, meaning, from),
        equalities_hold(found, meaning),
    ensures
        equalities_hold(conjunctive_equalities(predicates, found, from), meaning),
    decreases predicates, predicates.len() - from,
{
    if from < predicates.len() {
        assert(value(predicates[from], meaning));
        match predicates[from] {
            PredicateV::Equals(left, right) => {
                let next = found.push((left, right));
                assert forall|i: int| 0 <= i < next.len() implies meaning(
                    PredicateV::Equals((#[trigger] next[i]).0, next[i].1),
                ) by {
                    if i < found.len() {
                        assert(next[i] == found[i]);
                    }
                }
                law_equalities_follow(predicates, next, from + 1, meaning);
            },
            PredicateV::And(inner) => {
                assert(decreases_to!(predicates => predicates[from]));
                assert(decreases_to!(predicates[from] => predicates[from]->And_0));
                law_equalities_follow(inner, found, 0, meaning);
                law_equalities_follow(
                    predicates,
                    conjunctive_equalities(inner, found, 0),
                    from + 1,
                    meaning,
                );
            },
            _ => {
                law_equalities_follow(predicates, found, from + 1, meaning);
            },
        }
    }
}

} // verus!
