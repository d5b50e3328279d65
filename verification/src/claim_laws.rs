//! What the application of a claim as a circularity owes.

use vstd::prelude::*;
use crate::application_laws::{all_among, follows, lemma_undecided, none_false, settled_by};
use crate::apply_parts::undecided;
use crate::assoc::{assoc, law_bound};
use crate::claims::{
    claim_applied, claim_conditions, claim_freshened, claim_matched, claim_name, claim_remainder,
    claim_renaming, claim_variables, conditions_decided, destinations, free_claim_counter,
    fresh_claim_applied, law_claim_name_is_new, left_is_empty, pattern_substituted,
    patterns_substituted, subject_split, unbound_in, ClaimApplicationV, ClaimScope,
    ReachabilityClaimV,
};
use crate::index::{law_extension_contains, push_unique, unique_extension};
use crate::kernel::Kernel;
use crate::matcher::{definition_context, terms_matched};
use crate::matching::MatchMode;
use crate::names::next_counter;
use crate::normalize::normalized;
use crate::pattern::{extracted, pattern_names, pattern_variables, PatternV};
use crate::predicate::PredicateV;
use crate::predicates::{introduced_quantified, predicates_substituted};
use crate::rewrite_types::RemainderBranchV;
use crate::simplification::conjunction_simplified;
use crate::simplify_types::SimplificationErrorV;
use crate::solver::{SatisfiabilityV, SmtErrorV, SmtSolver};
use crate::substitution::{bound, composed, substituted, SubstitutionV};
use crate::term::{TermV, Variable, VariableV};
use crate::truth::{law_conjunction_false, truth_of};

verus! {

// ---------------------------------------------------------------------------------------------
// Soundness
// ---------------------------------------------------------------------------------------------
/// What shows that an application of a claim is sound.
pub struct ClaimGrounds {
    /// The names that the claim's variables get.
    pub renaming: SubstitutionV,
    /// The bindings of the claim's variables by the match, and the conditions of the match.
    pub matched: SubstitutionV,
    pub under: Seq<PredicateV>,
    /// The conditions of the match, and then the requirements, simplified.
    pub matching: Seq<PredicateV>,
    pub required: Seq<PredicateV>,
    /// The bindings that requirements stand for, and the other requirements.
    pub defined: SubstitutionV,
    pub others: Seq<PredicateV>,
    /// The same again, simplified under these bindings.
    pub matching_again: Seq<PredicateV>,
    pub required_again: Seq<PredicateV>,
    /// What is not known to hold of it, and under what the claim applies then.
    pub asked: Seq<PredicateV>,
    pub conditions: Seq<PredicateV>,
}

/// Whether each of the variables gets a variable of its sort, with a name that is not in use.
pub open spec fn renames(
    variables: Seq<VariableV>,
    names: Seq<Seq<char>>,
    renaming: SubstitutionV,
) -> bool {
    forall|i: int|
        0 <= i < variables.len() ==> renamed_apart(
            #[trigger] variables[i],
            names,
            assoc(renaming, variables[i]),
        )
}

/// Whether a variable gets a variable of its sort, with a name that is not in use.
pub open spec fn renamed_apart(
    variable: VariableV,
    names: Seq<Seq<char>>,
    value: Option<TermV>,
) -> bool {
    &&& value is Some && value->0 is Variable
    &&& value->0->Variable_0.sort == variable.sort
    &&& !names.contains(value->0->Variable_0.name)
}

/// Whether predicates simplify to others, of which none is known to be false.
pub open spec fn reduces_to<'a, K: Kernel, S: SmtSolver>(
    scope: ClaimScope<'a, K, S>,
    predicates: Seq<PredicateV>,
    known: Seq<PredicateV>,
    simple: Seq<PredicateV>,
) -> bool {
    let made = conjunction_simplified(
        scope.definition,
        scope.solver,
        predicates,
        known,
        scope.options,
    );
    made == Ok::<Seq<PredicateV>, SimplificationErrorV>(simple) && none_false(simple)
}

/// Whether the requirements are parted into bindings of variables that the match does not bind, and
/// others.
pub open spec fn defined_by<'a, K: Kernel, S: SmtSolver>(
    scope: ClaimScope<'a, K, S>,
    grounds: ClaimGrounds,
    variables: Seq<VariableV>,
) -> bool {
    &&& extracted(scope.definition.sort_graph@, Some(variables), grounds.required) == (
        grounds.defined,
        grounds.others,
    )
    &&& forall|i: int|
        0 <= i < variables.len() ==> assoc(grounds.matched, #[trigger] variables[i]) is None
}

/// Whether the conditions of a claim are met: those of the match and the claim's requirements,
/// under the bindings, are known to hold or are conditions of the application; or the solver says
/// that they follow.
pub open spec fn conditions_met<'a, K: Kernel, S: SmtSolver>(
    scope: ClaimScope<'a, K, S>,
    claim: ReachabilityClaimV,
    subject: PatternV,
    grounds: ClaimGrounds,
) -> bool {
    let known = subject.constraints;
    &&& reduces_to(scope, grounds.under, known, grounds.matching)
    &&& reduces_to(
        scope,
        predicates_substituted(
            predicates_substituted(claim.lhs.constraints, grounds.renaming),
            grounds.matched,
        ),
        unique_extension(known, grounds.matching),
        grounds.required,
    )
    &&& exists|variables: Seq<VariableV>| #[trigger] defined_by(scope, grounds, variables)
    &&& reduces_to(
        scope,
        predicates_substituted(grounds.matching, grounds.defined),
        known,
        grounds.matching_again,
    )
    &&& reduces_to(
        scope,
        predicates_substituted(grounds.others, grounds.defined),
        unique_extension(known, grounds.matching_again),
        grounds.required_again,
    )
    &&& settled_by(grounds.matching_again, known, grounds.asked)
    &&& settled_by(grounds.required_again, known, grounds.asked)
    &&& grounds.conditions == grounds.asked || follows(*scope.solver, known, grounds.asked)
}

/// Whether the results of a claim are its right-hand sides, in order, under the bindings, with the
/// constraints of the subject, the conditions of the application, and their own constraints.
pub open spec fn destinations_owed(
    claim: ReachabilityClaimV,
    subject: PatternV,
    patterns: Seq<PatternV>,
    grounds: ClaimGrounds,
) -> bool {
    let bindings = composed(grounds.defined, grounds.matched);
    &&& patterns.len() == claim.rhs.len()
    &&& forall|i: int|
        0 <= i < patterns.len() ==> (#[trigger] patterns[i]).term == substituted(
            substituted(claim.rhs[i].term, grounds.renaming),
            bindings,
        ) && all_among(subject.constraints, patterns[i].constraints) && all_among(
            grounds.conditions,
            patterns[i].constraints,
        ) && all_among(
            predicates_substituted(
                predicates_substituted(claim.rhs[i].constraints, grounds.renaming),
                bindings,
            ),
            patterns[i].constraints,
        )
}

/// The opposite of the conditions under which a claim applies to a subject.
pub open spec fn opposite_case(subject: PatternV, conditions: Seq<PredicateV>) -> PredicateV {
    normalized(
        PredicateV::Not(Box::new(introduced_quantified(pattern_variables(subject), conditions))),
    )
}

/// Whether a subject has no instance where a predicate holds.
pub open spec fn no_instance<'a, K: Kernel, S: SmtSolver>(
    scope: ClaimScope<'a, K, S>,
    subject: PatternV,
    predicate: PredicateV,
) -> bool {
    let simple = conjunction_simplified(
        scope.definition,
        scope.solver,
        seq![predicate],
        subject.constraints,
        scope.options,
    );
    &&& simple is Ok
    &&& !none_false(simple->Ok_0) || scope.solver.satisfiability(
        unique_extension(subject.constraints, simple->Ok_0),
        Seq::empty(),
    ) == Ok::<SatisfiabilityV, SmtErrorV>(SatisfiabilityV::Unsat)
}

/// Whether what a claim leaves is the subject where the conditions do not hold. Nothing is left
/// only where there are no conditions, or where the subject has no instance there.
pub open spec fn remainder_owed<'a, K: Kernel, S: SmtSolver>(
    scope: ClaimScope<'a, K, S>,
    subject: PatternV,
    remainder: Option<RemainderBranchV>,
    grounds: ClaimGrounds,
) -> bool {
    let opposite = opposite_case(subject, grounds.conditions);
    match remainder {
        None => grounds.conditions.len() == 0 || no_instance(scope, subject, opposite),
        Some(left) => {
            &&& grounds.conditions.len() > 0
            &&& left.pattern.term == subject.term
            &&& all_among(subject.constraints, left.pattern.constraints)
            &&& left.pattern.constraints.contains(opposite)
        },
    }
}

/// Whether bindings are split in two: those of the given variables, and conditions that say the
/// others.
pub open spec fn split_in_two(
    bindings: SubstitutionV,
    variables: Seq<VariableV>,
    kept: SubstitutionV,
    conditions: Seq<PredicateV>,
) -> bool {
    forall|i: int|
        0 <= i < bindings.len() ==> if variables.contains((#[trigger] bindings[i]).0) {
            kept.contains(bindings[i])
        } else {
            conditions.contains(
                PredicateV::Equals(TermV::Variable(bindings[i].0), bindings[i].1),
            )
        }
}

/// Whether an application of a claim is sound, as `grounds` show.
pub open spec fn sound_by<'a, K: Kernel, S: SmtSolver>(
    scope: ClaimScope<'a, K, S>,
    claim: ReachabilityClaimV,
    subject: PatternV,
    patterns: Seq<PatternV>,
    remainder: Option<RemainderBranchV>,
    grounds: ClaimGrounds,
) -> bool {
    let left = substituted(claim.lhs.term, grounds.renaming);
    let matched = terms_matched(
        definition_context(MatchMode::Rewrite, scope.definition),
        left,
        subject.term,
    );
    &&& renames(claim_variables(claim), pattern_names(subject), grounds.renaming)
    &&& !(matched is Failed)
    &&& matched is Success ==> exists|variables: Seq<VariableV>|
        #[trigger] split_in_two(matched->Success_0, variables, grounds.matched, grounds.under)
    &&& conditions_met(scope, claim, subject, grounds)
    &&& destinations_owed(claim, subject, patterns, grounds)
    &&& remainder_owed(scope, subject, remainder, grounds)
}

// ---------------------------------------------------------------------------------------------
// Names
// ---------------------------------------------------------------------------------------------
proof fn lemma_renamed(
    variables: Seq<VariableV>,
    names: Seq<Seq<char>>,
    avoided: Seq<Seq<char>>,
    renaming: SubstitutionV,
    counter: u64,
    from: int,
    variable: VariableV,
)
    requires
        0 <= from <= variables.len(),
        avoided.len() + variables.len() - from <= u64::MAX,
        forall|i: int| 0 <= i < names.len() ==> avoided.contains(#[trigger] names[i]),
        renamed_apart(variable, names, assoc(renaming, variable)) || exists|i: int|
            from <= i < variables.len() && variables[i] == variable,
    ensures
        renamed_apart(
            variable,
            names,
            assoc(claim_renaming(variables, avoided, renaming, counter, from).0, variable),
        ),
    decreases variables.len() - from,
{
    if from < variables.len() {
        let own = variables[from];
        let free = free_claim_counter(own.name, avoided, counter, avoided.len());
        let name = claim_name(own.name, free);
        law_claim_name_is_new(own.name, avoided, counter);
        let value = TermV::Variable(VariableV { name, ..own });
        law_bound::<Variable, TermV>(renaming, own, value, variable);
        let more = avoided.push(name);
        assert forall|i: int| 0 <= i < names.len() implies more.contains(#[trigger] names[i]) by {
            assert(avoided.contains(names[i]));
            let j: int = choose|j: int| 0 <= j < avoided.len() && avoided[j] == names[i];
            assert(more[j] == names[i]);
        }
        if names.contains(name) {
            let i: int = choose|i: int| 0 <= i < names.len() && names[i] == name;
            assert(avoided.contains(names[i]));
        }
        lemma_renamed(
            variables,
            names,
            more,
            bound(renaming, own, value),
            next_counter(free),
            from + 1,
            variable,
        );
    }
}

// ---------------------------------------------------------------------------------------------
// Parts
// ---------------------------------------------------------------------------------------------
proof fn lemma_patterns_substituted(
    patterns: Seq<PatternV>,
    substitution: SubstitutionV,
    found: Seq<PatternV>,
    from: int,
)
    requires
        from == found.len(),
        from <= patterns.len(),
        forall|i: int|
            0 <= i < from ==> #[trigger] found[i] == pattern_substituted(patterns[i], substitution),
    ensures
        ({
            let all = patterns_substituted(patterns, substitution, found, from);
            &&& all.len() == patterns.len()
            &&& forall|i: int|
                0 <= i < all.len() ==> #[trigger] all[i] == pattern_substituted(
                    patterns[i],
                    substitution,
                )
        }),
    decreases patterns.len() - from,
{
    if from < patterns.len() {
        lemma_patterns_substituted(
            patterns,
            substitution,
            found.push(pattern_substituted(patterns[from], substitution)),
            from + 1,
        );
    }
}

/// Whether a pattern is a right-hand side under bindings, with what is known.
spec fn is_destination(
    pattern: PatternV,
    rhs: PatternV,
    substitution: SubstitutionV,
    known: Seq<PredicateV>,
) -> bool {
    &&& pattern.term == substituted(rhs.term, substitution)
    &&& all_among(known, pattern.constraints)
    &&& all_among(predicates_substituted(rhs.constraints, substitution), pattern.constraints)
}

proof fn lemma_extension(predicates: Seq<PredicateV>, added: Seq<PredicateV>)
    ensures
        all_among(predicates, unique_extension(predicates, added)),
        all_among(added, unique_extension(predicates, added)),
{
    let all = unique_extension(predicates, added);
    assert forall|i: int| 0 <= i < predicates.len() implies all.contains(
        #[trigger] predicates[i],
    ) by {
        law_extension_contains(predicates, added, 0, predicates[i]);
        assert(predicates.contains(predicates[i]));
    }
    assert forall|i: int| 0 <= i < added.len() implies all.contains(#[trigger] added[i]) by {
        law_extension_contains(predicates, added, 0, added[i]);
    }
}

proof fn lemma_destinations(
    rhs: Seq<PatternV>,
    substitution: SubstitutionV,
    known: Seq<PredicateV>,
    found: Seq<PatternV>,
    from: int,
)
    requires
        from == found.len(),
        from <= rhs.len(),
        forall|i: int|
            0 <= i < from ==> is_destination(#[trigger] found[i], rhs[i], substitution, known),
    ensures
        ({
            let all = destinations(rhs, substitution, known, found, from);
            &&& all.len() == rhs.len()
            &&& forall|i: int|
                0 <= i < all.len() ==> is_destination(
                    #[trigger] all[i],
                    rhs[i],
                    substitution,
                    known,
                )
        }),
    decreases rhs.len() - from,
{
    if from < rhs.len() {
        let next = PatternV {
            term: substituted(rhs[from].term, substitution),
            constraints: unique_extension(
                known,
                predicates_substituted(rhs[from].constraints, substitution),
            ),
        };
        lemma_extension(known, predicates_substituted(rhs[from].constraints, substitution));
        lemma_destinations(rhs, substitution, known, found.push(next), from + 1);
    }
}

proof fn lemma_split<K: Kernel>(
    kernel: &K,
    bindings: SubstitutionV,
    variables: Seq<VariableV>,
    kept: SubstitutionV,
    conditions: Seq<PredicateV>,
    from: int,
)
    requires
        0 <= from <= bindings.len(),
    ensures
        ({
            let (all, under) = subject_split(kernel, bindings, variables, kept, conditions, from);
            &&& kept.is_prefix_of(all)
            &&& forall|predicate: PredicateV| #[trigger]
                conditions.contains(predicate) ==> under.contains(predicate)
            &&& forall|i: int|
                from <= i < bindings.len() ==> if variables.contains((#[trigger] bindings[i]).0) {
                    all.contains(bindings[i])
                } else {
                    under.contains(
                        PredicateV::Equals(TermV::Variable(bindings[i].0), bindings[i].1),
                    )
                }
        }),
    decreases bindings.len() - from,
{
    if from < bindings.len() {
        let (variable, value) = bindings[from];
        let (all, under) = subject_split(kernel, bindings, variables, kept, conditions, from);
        if variables.contains(variable) {
            let more = kept.push(bindings[from]);
            lemma_split(kernel, bindings, variables, more, conditions, from + 1);
            assert(more[kept.len() as int] == bindings[from]);
            assert(all[kept.len() as int] == bindings[from]);
        } else {
            let said = PredicateV::Equals(TermV::Variable(variable), value);
            let equality = push_unique(conditions, said);
            let more = if value is Variable {
                equality
            } else {
                unique_extension(equality, kernel.ceil(value))
            };
            assert(equality.contains(said)) by {
                if !conditions.contains(said) {
                    assert(equality[conditions.len() as int] == said);
                }
            }
            assert forall|predicate: PredicateV| #[trigger]
                conditions.contains(predicate) implies more.contains(predicate) by {
                let i: int = choose|i: int|
                    0 <= i < conditions.len() && conditions[i] == predicate;
                assert(equality[i] == predicate);
                law_extension_contains(equality, kernel.ceil(value), 0, predicate);
            }
            law_extension_contains(equality, kernel.ceil(value), 0, said);
            lemma_split(kernel, bindings, variables, kept, more, from + 1);
        }
    }
}

proof fn lemma_unbound(
    variables: Seq<VariableV>,
    substitution: SubstitutionV,
    found: Seq<VariableV>,
    from: int,
)
    requires
        0 <= from,
        forall|i: int| 0 <= i < found.len() ==> assoc(substitution, #[trigger] found[i]) is None,
    ensures
        ({
            let all = unbound_in(variables, substitution, found, from);
            forall|i: int| 0 <= i < all.len() ==> assoc(substitution, #[trigger] all[i]) is None
        }),
    decreases variables.len() - from,
{
    if from < variables.len() {
        let next = if assoc(substitution, variables[from]) is None {
            found.push(variables[from])
        } else {
            found
        };
        lemma_unbound(variables, substitution, next, from + 1);
    }
}

/// An application of a claim is sound. The claim's variables get names that the subject does not
/// have. Its requirements and the conditions of the match hold, or are conditions of the
/// application, or follow. The results are its right-hand sides where these conditions hold, and
/// what is left of the subject is where they do not.
#[verifier::spinoff_prover]
#[verifier::rlimit(50)]
pub proof fn law_claims_are_applied_soundly<'a, K: Kernel, S: SmtSolver>(
    scope: ClaimScope<'a, K, S>,
    claim: ReachabilityClaimV,
    subject: PatternV,
    counter: u64,
) -> (grounds: ClaimGrounds)
    requires
        claim_applied(scope, claim, subject, counter).0 is Applied,
        pattern_names(subject).len() + claim_variables(claim).len() <= u64::MAX,
    ensures
        sound_by(
            scope,
            claim,
            subject,
            claim_applied(scope, claim, subject, counter).0->patterns,
            claim_applied(scope, claim, subject, counter).0->remainder,
            grounds,
        ),
{
    reveal(claim_applied);
    let variables = claim_variables(claim);
    let names = pattern_names(subject);
    let renaming = claim_renaming(variables, names, Seq::empty(), counter, 0).0;
    let fresh = claim_freshened(claim, subject, counter).0;
    let applied = fresh_claim_applied(scope, fresh, subject);
    let known = subject.constraints;
    assert forall|i: int| 0 <= i < variables.len() implies renamed_apart(
        #[trigger] variables[i],
        names,
        assoc(renaming, variables[i]),
    ) by {
        assert(forall|j: int| 0 <= j < names.len() ==> names.contains(#[trigger] names[j]));
        lemma_renamed(variables, names, names, Seq::empty(), counter, 0, variables[i]);
    }
    let (bindings, found) = claim_matched(scope, fresh, subject)->Ok_0;
    let own = claim_variables(fresh);
    let kernel = &scope.definition.kernel;
    let (matched, under) = subject_split(kernel, bindings, own, Seq::empty(), found, 0);
    lemma_split(kernel, bindings, own, Seq::empty(), found, 0);
    assert(split_in_two(bindings, own, matched, under));
    let matching = scope.spec_simplified(under, known)->Ok_0;
    let required = scope.spec_simplified(
        predicates_substituted(fresh.lhs.constraints, matched),
        unique_extension(known, matching),
    )->Ok_0;
    let unbound = unbound_in(own, matched, Seq::empty(), 0);
    lemma_unbound(own, matched, Seq::empty(), 0);
    let (defined, others) = extracted(scope.definition.sort_graph@, Some(unbound), required);
    let matching_again = scope.spec_simplified(
        predicates_substituted(matching, defined),
        known,
    )->Ok_0;
    let required_again = scope.spec_simplified(
        predicates_substituted(others, defined),
        unique_extension(known, matching_again),
    )->Ok_0;
    let all = unique_extension(matching_again, required_again);
    let asked = undecided(all, known, Seq::empty(), 0);
    assert(claim_conditions(scope, fresh, subject, matched, under) == Ok::<
        (SubstitutionV, Seq<PredicateV>),
        ClaimApplicationV,
    >((composed(defined, matched), asked)));
    let conditions = conditions_decided(scope, subject, asked)->Ok_0;
    law_conjunction_false(matching);
    law_conjunction_false(required);
    law_conjunction_false(matching_again);
    law_conjunction_false(required_again);
    lemma_undecided(all, known, Seq::empty(), 0);
    lemma_extension(matching_again, required_again);
    lemma_settled(matching_again, all, known, asked);
    lemma_settled(required_again, all, known, asked);
    let grounds = ClaimGrounds {
        renaming,
        matched,
        under,
        matching,
        required,
        defined,
        others,
        matching_again,
        required_again,
        asked,
        conditions,
    };
    assert(reduces_to(scope, under, known, matching));
    assert(reduces_to(
        scope,
        predicates_substituted(
            predicates_substituted(claim.lhs.constraints, renaming),
            matched,
        ),
        unique_extension(known, matching),
        required,
    ));
    assert(defined_by(scope, grounds, unbound));
    assert(reduces_to(scope, predicates_substituted(matching, defined), known, matching_again));
    assert(reduces_to(
        scope,
        predicates_substituted(others, defined),
        unique_extension(known, matching_again),
        required_again,
    ));
    assert(conditions == asked || follows(*scope.solver, known, asked));
    assert(conditions_met(scope, claim, subject, grounds));
    let total = composed(defined, matched);
    let patterns = applied->patterns;
    lemma_patterns_substituted(claim.rhs, renaming, Seq::empty(), 0);
    let goal = unique_extension(known, conditions);
    lemma_extension(known, conditions);
    lemma_destinations(fresh.rhs, total, goal, Seq::empty(), 0);
    assert(patterns == destinations(fresh.rhs, total, goal, Seq::empty(), 0));
    assert forall|i: int| 0 <= i < patterns.len() implies (#[trigger] patterns[i]).term
        == substituted(substituted(claim.rhs[i].term, renaming), total) && all_among(
        known,
        patterns[i].constraints,
    ) && all_among(conditions, patterns[i].constraints) && all_among(
        predicates_substituted(predicates_substituted(claim.rhs[i].constraints, renaming), total),
        patterns[i].constraints,
    ) by {
        assert(is_destination(patterns[i], fresh.rhs[i], total, goal));
        lemma_among(known, goal, patterns[i].constraints);
        lemma_among(conditions, goal, patterns[i].constraints);
    }
    assert(destinations_owed(claim, subject, patterns, grounds));
    lemma_remainder(scope, subject, conditions, claim.attributes.unique_id, grounds);
    grounds
}

proof fn lemma_among(
    few: Seq<PredicateV>,
    more: Seq<PredicateV>,
    most: Seq<PredicateV>,
)
    requires
        all_among(few, more),
        all_among(more, most),
    ensures
        all_among(few, most),
{
    assert forall|i: int| 0 <= i < few.len() implies most.contains(#[trigger] few[i]) by {
        assert(more.contains(few[i]));
        let j: int = choose|j: int| 0 <= j < more.len() && more[j] == few[i];
        assert(most.contains(more[j]));
    }
}

proof fn lemma_settled(
    some: Seq<PredicateV>,
    all: Seq<PredicateV>,
    known: Seq<PredicateV>,
    asked: Seq<PredicateV>,
)
    requires
        all_among(some, all),
        none_false(some),
        asked == undecided(all, known, Seq::empty(), 0),
    ensures
        settled_by(some, known, asked),
{
    lemma_undecided(all, known, Seq::empty(), 0);
    assert forall|i: int| 0 <= i < some.len() implies truth_of(#[trigger] some[i]) is True
        || known.contains(some[i]) || asked.contains(some[i]) by {
        assert(all.contains(some[i]));
        let j: int = choose|j: int| 0 <= j < all.len() && all[j] == some[i];
        assert(truth_of(all[j]) == truth_of(some[i]));
    }
}

proof fn lemma_remainder<'a, K: Kernel, S: SmtSolver>(
    scope: ClaimScope<'a, K, S>,
    subject: PatternV,
    conditions: Seq<PredicateV>,
    unique_id: Seq<char>,
    grounds: ClaimGrounds,
)
    requires
        grounds.conditions == conditions,
    ensures
        remainder_owed(
            scope,
            subject,
            claim_remainder(scope, subject, conditions, unique_id),
            grounds,
        ),
{
    let opposite = opposite_case(subject, conditions);
    let left = push_unique(subject.constraints, opposite);
    assert forall|i: int| 0 <= i < subject.constraints.len() implies left.contains(
        #[trigger] subject.constraints[i],
    ) by {
        assert(left[i] == subject.constraints[i]);
    }
    assert(left.contains(opposite)) by {
        if !subject.constraints.contains(opposite) {
            assert(left[subject.constraints.len() as int] == opposite);
        }
    }
    if left_is_empty(scope, subject, opposite) {
        let simple = conjunction_simplified(
            scope.definition,
            scope.solver,
            seq![opposite],
            subject.constraints,
            scope.options,
        )->Ok_0;
        law_conjunction_false(simple);
    }
}

/// A claim that does not match is not applied.
pub proof fn law_unmatched_claims_do_not_apply<'a, K: Kernel, S: SmtSolver>(
    scope: ClaimScope<'a, K, S>,
    claim: ReachabilityClaimV,
    subject: PatternV,
    counter: u64,
)
    requires
        terms_matched(
            definition_context(MatchMode::Rewrite, scope.definition),
            claim_freshened(claim, subject, counter).0.lhs.term,
            subject.term,
        ) is Failed,
    ensures
        claim_applied(scope, claim, subject, counter).0 is NotApplicable,
{
    reveal(claim_applied);
}

} // verus!
