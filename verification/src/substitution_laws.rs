//! What substitutions do one after another.

use vstd::prelude::*;
use crate::assoc::{assoc, assoc_from, law_bound};
use crate::match_laws::{lemma_plain_child, plain};
use crate::ops::{children, lemma_child_smaller};
use crate::rebuild::with_children;
use crate::substitution::{
    bound, composed, composed_from, composed_values, substituted, substituted_child,
    substituted_children, SubstitutionV,
};
use crate::term::{TermV, Variable, VariableV};

verus! {

/// Whether a substitution binds no variable twice.
pub open spec fn binds_once(substitution: SubstitutionV) -> bool {
    forall|i: int, j: int|
        0 <= i < j < substitution.len() ==> (#[trigger] substitution[i]).0 != (
        #[trigger] substitution[j]).0
}

proof fn lemma_not_behind(substitution: SubstitutionV, at: int, from: int)
    requires
        binds_once(substitution),
        0 <= at < from,
        at < substitution.len(),
    ensures
        assoc_from(substitution, substitution[at].0, from) is None,
    decreases substitution.len() - from,
{
    if from < substitution.len() {
        assert(substitution[at].0 != substitution[from].0);
        lemma_not_behind(substitution, at, from + 1);
    }
}

pub proof fn lemma_values(new: SubstitutionV, old: SubstitutionV, variable: VariableV, from: int)
    requires
        0 <= from,
    ensures
        assoc_from(composed_values(new, old), variable, from) == (match assoc_from(
            old,
            variable,
            from,
        ) {
            Some(term) => Some(substituted(term, new)),
            None => None,
        }),
    decreases old.len() - from,
{
    if from < old.len() {
        lemma_values(new, old, variable, from + 1);
    }
}

pub proof fn lemma_composed_from(
    new: SubstitutionV,
    old: SubstitutionV,
    found: SubstitutionV,
    variable: VariableV,
    from: int,
)
    requires
        binds_once(new),
        0 <= from,
    ensures
        assoc(composed_from(new, old, found, from), variable) == (if assoc(old, variable) is None
            && assoc_from(new, variable, from) is Some {
            assoc_from(new, variable, from)
        } else {
            assoc(found, variable)
        }),
    decreases new.len() - from,
{
    if from < new.len() {
        let (key, term) = new[from];
        if assoc(old, key) is Some {
            lemma_composed_from(new, old, found, variable, from + 1);
        } else {
            law_bound::<Variable, TermV>(found, key, term, variable);
            lemma_composed_from(new, old, bound(found, key, term), variable, from + 1);
            lemma_not_behind(new, from, from + 1);
        }
    }
}

/// To substitute by a composition is to substitute by the first substitution and then by the
/// second one, in a term without collections.
pub proof fn law_composed(term: TermV, new: SubstitutionV, old: SubstitutionV)
    requires
        plain(term),
        binds_once(new),
    ensures
        substituted(term, composed(new, old)) == substituted(substituted(term, old), new),
    decreases term,
{
    if term is Variable {
        let variable = term->Variable_0;
        lemma_values(new, old, variable, 0);
        lemma_composed_from(new, old, composed_values(new, old), variable, 0);
    } else {
        reveal(children);
        reveal(with_children);
        let all = composed(new, old);
        let once = substituted(term, old);
        assert(children(once) =~= substituted_children(term, old));
        let left = substituted_children(term, all);
        let right = substituted_children(once, new);
        assert forall|i: int| 0 <= i < children(term).len() implies left[i] == right[i] by {
            lemma_child_smaller(term, i);
            lemma_plain_child(term, 0, i);
            assert(left[i] == substituted_child(term, i, all));
            assert(right[i] == substituted_child(once, i, new));
            assert(children(once)[i] == substituted_child(term, i, old));
            law_composed(children(term)[i], new, old);
        }
        assert(left =~= right);
    }
}

} // verus!
