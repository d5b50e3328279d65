//! What becomes of the bindings of a match: all of them are kept, or said by conditions.

use vstd::prelude::*;
use crate::applicability::{
    conditions_defined, conditions_open, configuration_split, match_settled, values_defined,
};
use crate::application_laws::{all_among, lemma_undecided, none_false};
use crate::apply_parts::{undecided, RuleScopeV};
use crate::construct::variables_of;
use crate::index::{law_extension_contains, push_unique, unique_extension};
use crate::kernel::Kernel;
use crate::predicate::PredicateV;
use crate::rewrite_types::RuleAttemptV;
use crate::simplification::conjunction_simplified;
use crate::simplify_types::SimplificationErrorV;
use crate::solver::{SatisfiabilityV, SmtErrorV, SmtSolver};
use crate::substitution::SubstitutionV;
use crate::term::{TermV, VariableV};
use crate::truth::{law_conjunction_false, truth_of};

verus! {

/// Whether all bindings are kept or said: those of the given variables are kept, and for each
/// other one it is said that the variable has the value and that the value is defined.
pub open spec fn kept_or_said<K: Kernel>(
    kernel: &K,
    bindings: SubstitutionV,
    variables: Seq<VariableV>,
    kept: SubstitutionV,
    said: Seq<PredicateV>,
) -> bool {
    forall|i: int|
        0 <= i < bindings.len() ==> if variables.contains((#[trigger] bindings[i]).0) {
            kept.contains(bindings[i])
        } else {
            said.contains(PredicateV::Equals(TermV::Variable(bindings[i].0), bindings[i].1))
                && all_among(kernel.ceil(bindings[i].1), said)
        }
}

/// Whether it is asked that all values but variables are defined.
pub open spec fn definedness_asked<K: Kernel>(
    kernel: &K,
    bindings: SubstitutionV,
    asked: Seq<PredicateV>,
) -> bool {
    forall|i: int|
        0 <= i < bindings.len() && !((#[trigger] bindings[i]).1 is Variable) ==> all_among(
            kernel.ceil(bindings[i].1),
            asked,
        )
}

/// Whether predicates were simplified, none to what is known to be false, and what is open of them
/// is among the conditions.
pub open spec fn is_owed<'a, K: Kernel, S: SmtSolver>(
    scope: RuleScopeV<'a, K, S>,
    asked: Seq<PredicateV>,
    known: Seq<PredicateV>,
    simple: Seq<PredicateV>,
    conditions: Seq<PredicateV>,
) -> bool {
    &&& conjunction_simplified(scope.definition, scope.solver, asked, known, scope.options)
        == Ok::<Seq<PredicateV>, SimplificationErrorV>(simple)
    &&& none_false(simple)
    &&& forall|i: int|
        0 <= i < simple.len() ==> truth_of(#[trigger] simple[i]) is True || conditions.contains(
            simple[i],
        )
}

/// What a match comes down to.
pub struct Settlement {
    /// What is asked of the match, and what that simplifies to.
    pub asked: Seq<PredicateV>,
    pub simple: Seq<PredicateV>,
    /// What makes the values defined, and what that simplifies to where the other conditions hold.
    pub defined: Seq<PredicateV>,
    pub first: Seq<PredicateV>,
    pub sure: Seq<PredicateV>,
}

proof fn lemma_contained(
    before: Seq<PredicateV>,
    added: Seq<PredicateV>,
    predicate: PredicateV,
)
    ensures
        before.contains(predicate) ==> unique_extension(before, added).contains(predicate),
        all_among(added, unique_extension(before, added)),
{
    law_extension_contains(before, added, 0, predicate);
    assert forall|i: int| 0 <= i < added.len() implies unique_extension(before, added).contains(
        #[trigger] added[i],
    ) by {
        law_extension_contains(before, added, 0, added[i]);
    }
}

proof fn lemma_pushed(before: Seq<PredicateV>, added: PredicateV, predicate: PredicateV)
    ensures
        before.contains(predicate) ==> push_unique(before, added).contains(predicate),
        push_unique(before, added).contains(added),
{
    let all = push_unique(before, added);
    if !before.contains(added) {
        assert(all[before.len() as int] == added);
    }
    if before.contains(predicate) {
        let i: int = choose|i: int| 0 <= i < before.len() && before[i] == predicate;
        assert(all[i] == predicate);
    }
}

/// Whether every predicate of the first is in the second.
spec fn within(few: Seq<PredicateV>, more: Seq<PredicateV>) -> bool {
    forall|predicate: PredicateV| #[trigger] few.contains(predicate) ==> more.contains(predicate)
}

proof fn lemma_within(some: Seq<PredicateV>, few: Seq<PredicateV>, more: Seq<PredicateV>)
    requires
        all_among(some, few),
        within(few, more),
    ensures
        all_among(some, more),
{
    assert forall|i: int| 0 <= i < some.len() implies more.contains(#[trigger] some[i]) by {
        assert(few.contains(some[i]));
    }
}

proof fn lemma_split<K: Kernel>(
    kernel: &K,
    bindings: SubstitutionV,
    variables: Seq<VariableV>,
    kept: SubstitutionV,
    conditions: Seq<PredicateV>,
    from: int,
)
    requires
        0 <= from <= bindings.len(),
        kept_or_said(kernel, bindings.take(from), variables, kept, conditions),
    ensures
        ({
            let (all, said) = configuration_split(
                kernel,
                bindings,
                variables,
                kept,
                conditions,
                from,
            );
            within(conditions, said) && kept_or_said(kernel, bindings, variables, all, said)
        }),
    decreases bindings.len() - from,
{
    if from < bindings.len() {
        let (variable, value) = bindings[from];
        let before = bindings.take(from);
        let next = bindings.take(from + 1);
        assert(forall|i: int| 0 <= i < from ==> before[i] == #[trigger] next[i]);
        assert(next[from] == bindings[from]);
        if variables.contains(variable) {
            let more = kept.push(bindings[from]);
            assert forall|i: int| 0 <= i < next.len() implies if variables.contains(
                (#[trigger] next[i]).0,
            ) {
                more.contains(next[i])
            } else {
                conditions.contains(PredicateV::Equals(TermV::Variable(next[i].0), next[i].1))
                    && all_among(kernel.ceil(next[i].1), conditions)
            } by {
                if i == from {
                    assert(more[kept.len() as int] == next[i]);
                } else {
                    assert(before[i] == next[i]);
                    if variables.contains(next[i].0) {
                        let j: int = choose|j: int| 0 <= j < kept.len() && kept[j] == next[i];
                        assert(more[j] == next[i]);
                    }
                }
            }
            lemma_split(kernel, bindings, variables, more, conditions, from + 1);
        } else {
            let own = PredicateV::Equals(TermV::Variable(variable), value);
            let first = push_unique(conditions, own);
            let more = unique_extension(first, kernel.ceil(value));
            assert(within(conditions, more)) by {
                assert forall|predicate: PredicateV| #[trigger]
                    conditions.contains(predicate) implies more.contains(predicate) by {
                    lemma_pushed(conditions, own, predicate);
                    lemma_contained(first, kernel.ceil(value), predicate);
                }
            }
            lemma_pushed(conditions, own, own);
            lemma_contained(first, kernel.ceil(value), own);
            assert forall|i: int| 0 <= i < next.len() implies if variables.contains(
                (#[trigger] next[i]).0,
            ) {
                kept.contains(next[i])
            } else {
                more.contains(PredicateV::Equals(TermV::Variable(next[i].0), next[i].1))
                    && all_among(kernel.ceil(next[i].1), more)
            } by {
                if i < from {
                    assert(before[i] == next[i]);
                    if !variables.contains(next[i].0) {
                        lemma_within(kernel.ceil(next[i].1), conditions, more);
                    }
                }
            }
            lemma_split(kernel, bindings, variables, kept, more, from + 1);
        }
    } else {
        assert(bindings.take(from) =~= bindings);
    }
}

proof fn lemma_values<K: Kernel>(
    kernel: &K,
    bindings: SubstitutionV,
    found: Seq<PredicateV>,
    from: int,
)
    requires
        0 <= from <= bindings.len(),
        definedness_asked(kernel, bindings.take(from), found),
    ensures
        definedness_asked(kernel, bindings, values_defined(kernel, bindings, found, from)),
    decreases bindings.len() - from,
{
    if from < bindings.len() {
        let value = bindings[from].1;
        let before = bindings.take(from);
        let next = bindings.take(from + 1);
        let more = if value is Variable {
            found
        } else {
            unique_extension(found, kernel.ceil(value))
        };
        assert(next[from] == bindings[from]);
        assert forall|i: int| 0 <= i < next.len() && !((
        #[trigger] next[i]).1 is Variable) implies all_among(kernel.ceil(next[i].1), more) by {
            if i < from {
                assert(before[i] == next[i]);
                assert(within(found, more)) by {
                    assert forall|predicate: PredicateV| #[trigger]
                        found.contains(predicate) implies more.contains(predicate) by {
                        lemma_contained(found, kernel.ceil(value), predicate);
                    }
                }
                lemma_within(kernel.ceil(next[i].1), found, more);
            } else {
                lemma_contained(found, kernel.ceil(value), PredicateV::True);
            }
        }
        lemma_values(kernel, bindings, more, from + 1);
    } else {
        assert(bindings.take(from) =~= bindings);
    }
}

/// A match loses nothing when it is settled. The bindings of the rule's variables are kept. That
/// the other variables have their values, that all values are defined, and the conditions that the
/// match came with hold, or what is open of them is among the conditions. The solver is asked
/// whether these can hold together with the constraints of the pattern.
#[verifier::spinoff_prover]
pub proof fn law_settled_matches_lose_nothing<'a, K: Kernel, S: SmtSolver>(
    scope: RuleScopeV<'a, K, S>,
    substitution: SubstitutionV,
    inherited: Seq<PredicateV>,
    conditions: Seq<PredicateV>,
) -> (settlement: Settlement)
    requires
        match_settled(scope, substitution, inherited, conditions) is Ok,
    ensures
        ({
            let (kept, open) = match_settled(scope, substitution, inherited, conditions)->Ok_0;
            let kernel = &scope.definition.kernel;
            &&& all_among(inherited, settlement.asked)
            &&& all_among(conditions, settlement.asked)
            &&& kept_or_said(
                kernel,
                substitution,
                variables_of(scope.rule.lhs),
                kept,
                settlement.asked,
            )
            &&& is_owed(
                scope,
                settlement.asked,
                scope.path_knowledge(),
                settlement.simple,
                open,
            )
            &&& definedness_asked(kernel, kept, settlement.defined)
            &&& all_among(settlement.first, open)
            &&& is_owed(
                scope,
                settlement.defined,
                unique_extension(scope.path_knowledge(), settlement.first),
                settlement.sure,
                open,
            )
            &&& open.len() > 0 ==> scope.solver.satisfiability(
                unique_extension(scope.pattern.constraints, open),
                Seq::empty(),
            ) == Ok::<SatisfiabilityV, SmtErrorV>(SatisfiabilityV::Sat)
        }),
{
    let kernel = &scope.definition.kernel;
    let variables = variables_of(scope.rule.lhs);
    let (kept, said) = configuration_split(
        kernel,
        substitution,
        variables,
        Seq::empty(),
        conditions,
        0,
    );
    assert(substitution.take(0) =~= Seq::empty());
    lemma_split(kernel, substitution, variables, Seq::empty(), conditions, 0);
    let asked = inherited + said;
    assert(within(said, asked)) by {
        assert forall|predicate: PredicateV| #[trigger] said.contains(predicate) implies
            asked.contains(predicate) by {
            let i: int = choose|i: int| 0 <= i < said.len() && said[i] == predicate;
            assert(asked[inherited.len() + i] == predicate);
        }
    }
    assert forall|i: int| 0 <= i < inherited.len() implies asked.contains(
        #[trigger] inherited[i],
    ) by {
        assert(asked[i] == inherited[i]);
    }
    assert forall|i: int| 0 <= i < conditions.len() implies asked.contains(
        #[trigger] conditions[i],
    ) by {
        assert(conditions.contains(conditions[i]));
        assert(said.contains(conditions[i]));
    }
    assert forall|i: int| 0 <= i < substitution.len() implies if variables.contains(
        (#[trigger] substitution[i]).0,
    ) {
        kept.contains(substitution[i])
    } else {
        asked.contains(
            PredicateV::Equals(TermV::Variable(substitution[i].0), substitution[i].1),
        ) && all_among(kernel.ceil(substitution[i].1), asked)
    } by {
        if !variables.contains(substitution[i].0) {
            lemma_within(kernel.ceil(substitution[i].1), said, asked);
        }
    }
    let simple = scope.simplified(asked, scope.path_knowledge())->Ok_0;
    law_conjunction_false(simple);
    lemma_undecided(simple, Seq::empty(), Seq::empty(), 0);
    let first = undecided(simple, Seq::empty(), Seq::empty(), 0);
    assert(conditions_open(scope, asked) == Ok::<
        Seq<PredicateV>,
        RuleAttemptV,
    >(first));
    let defined = values_defined(kernel, kept, Seq::empty(), 0);
    assert(kept.take(0) =~= Seq::empty());
    lemma_values(kernel, kept, Seq::empty(), 0);
    let sure = scope.simplified(
        defined,
        unique_extension(scope.path_knowledge(), first),
    )->Ok_0;
    law_conjunction_false(sure);
    lemma_undecided(sure, Seq::empty(), Seq::empty(), 0);
    let rest = undecided(sure, Seq::empty(), Seq::empty(), 0);
    let open = unique_extension(first, rest);
    assert(conditions_defined(scope, kept, first)->Ok_0 == open);
    lemma_contained(first, rest, PredicateV::True);
    assert forall|i: int| 0 <= i < first.len() implies open.contains(#[trigger] first[i]) by {
        assert(first.contains(first[i]));
        lemma_contained(first, rest, first[i]);
    }
    assert forall|i: int| 0 <= i < simple.len() implies truth_of(#[trigger] simple[i]) is True
        || open.contains(simple[i]) by {
        if truth_of(simple[i]) is Unknown {
            assert(first.contains(simple[i]));
            lemma_contained(first, rest, simple[i]);
        }
    }
    assert forall|i: int| 0 <= i < sure.len() implies truth_of(#[trigger] sure[i]) is True
        || open.contains(sure[i]) by {
        if truth_of(sure[i]) is Unknown {
            assert(rest.contains(sure[i]));
            let j: int = choose|j: int| 0 <= j < rest.len() && rest[j] == sure[i];
            assert(open.contains(rest[j]));
        }
    }
    Settlement { asked, simple, defined, first, sure }
}

} // verus!
