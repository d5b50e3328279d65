//! A rewrite step loses no case: every rule that applies gives its branches, and what is left is
//! the case in which none of them applies.

use vstd::prelude::*;
use crate::application_laws::{
    all_among, all_sound, attempt_sound, law_applications_are_sound, sound,
};
use crate::apply::{rule_applied, REFINEMENTS};
use crate::apply_parts::RuleScopeV;
use crate::domain::violates_domain;
use crate::equations::groups_for;
use crate::index::{law_extension_contains, push_unique, unique_extension};
use crate::kernel::Kernel;
use crate::pattern::PatternV;
use crate::predicate::PredicateV;
use crate::rewrite_types::{
    AppliedRuleV, RemainderBranchV, RewriteResultV, RuleApplicationV, RuleAttemptV,
    TrivialApplicationV,
};
use crate::rule::{index_of, GroupsV, RewriteRuleV};
use crate::simplification::conjunction_simplified;
use crate::simplify_parts::Environment;
use crate::simplify_types::{SimplificationErrorV, SimplificationOptions};
use crate::solver::{SatisfiabilityV, SmtErrorV, SmtSolver};
use crate::step::{
    applied_remainders, applied_rules, group_applied, group_outcome, groups_stepped, narrowed_by,
    rule_taken, rules_of, sequence_outcome, sequence_start, sequence_stepped, stepped,
    trivial_remainders, with_applications, with_trivial, ExecutionMode, GroupV, SequentialV,
};
use crate::truth::{conjunction_truth, law_conjunction_false, truth_of};

verus! {

// ---------------------------------------------------------------------------------------------
// Outcomes
// ---------------------------------------------------------------------------------------------
/// The branches of a step.
pub open spec fn branches_of(result: RewriteResultV) -> Seq<AppliedRuleV> {
    match result {
        RewriteResultV::Finished(applied) => seq![applied],
        RewriteResultV::Branch { branches, .. } => branches,
        _ => Seq::empty(),
    }
}

/// What a step leaves.
pub open spec fn remainder_in(result: RewriteResultV) -> Option<RemainderBranchV> {
    match result {
        RewriteResultV::Branch { remainder, .. } => remainder,
        _ => None,
    }
}

/// What is tried when a rule is applied to a pattern.
pub open spec fn scope_for<'a, K: Kernel, S: SmtSolver>(
    environment: Environment<'a, K, S>,
    options: SimplificationOptions,
    pattern: PatternV,
    assume_defined: bool,
    rule: RewriteRuleV,
) -> RuleScopeV<'a, K, S> {
    RuleScopeV {
        definition: environment.definition,
        solver: environment.solver,
        rule,
        pattern,
        options,
        assume_defined,
    }
}

/// Whether trying a rule, with some counter for fresh names, gives `attempt`.
pub open spec fn gives<'a, K: Kernel, S: SmtSolver>(
    scope: RuleScopeV<'a, K, S>,
    attempt: RuleAttemptV,
) -> bool {
    exists|counter: u64| (#[trigger] rule_applied(scope, REFINEMENTS as nat, None, counter)).0
        == attempt
}

/// Whether a rule does not apply, or all of its applications are among `applied` and `trivial`.
pub open spec fn taken_into<'a, K: Kernel, S: SmtSolver>(
    scope: RuleScopeV<'a, K, S>,
    applied: Seq<RuleApplicationV>,
    trivial: Seq<TrivialApplicationV>,
) -> bool {
    exists|attempt: RuleAttemptV| #[trigger] gives(scope, attempt) && match attempt {
        RuleAttemptV::NotApplicable => true,
        RuleAttemptV::Unified { applied: own, trivial: own_trivial } => {
            &&& forall|i: int| 0 <= i < own.len() ==> applied.contains(#[trigger] own[i])
            &&& forall|i: int|
                0 <= i < own_trivial.len() ==> trivial.contains(#[trigger] own_trivial[i])
        },
        RuleAttemptV::Indeterminate(_) => false,
    }
}

/// Whether none of `rules` gives anything on a pattern: each is refused, or has no outcome.
pub open spec fn all_refused<'a, K: Kernel, S: SmtSolver>(
    environment: Environment<'a, K, S>,
    options: SimplificationOptions,
    pattern: PatternV,
    assume_defined: bool,
    rules: Seq<RewriteRuleV>,
) -> bool {
    all_taken(
        environment,
        options,
        pattern,
        assume_defined,
        rules,
        Seq::empty(),
        Seq::empty(),
    )
}

/// Whether all of `rules` are refused on a pattern or have their applications among `applied` and
/// `trivial`.
pub open spec fn all_taken<'a, K: Kernel, S: SmtSolver>(
    environment: Environment<'a, K, S>,
    options: SimplificationOptions,
    pattern: PatternV,
    assume_defined: bool,
    rules: Seq<RewriteRuleV>,
    applied: Seq<RuleApplicationV>,
    trivial: Seq<TrivialApplicationV>,
) -> bool {
    forall|i: int|
        0 <= i < rules.len() ==> taken_into(
            scope_for(environment, options, pattern, assume_defined, #[trigger] rules[i]),
            applied,
            trivial,
        )
}

/// Whether each of `applied` is a sound application of one of `rules` to a pattern.
pub open spec fn all_from<'a, K: Kernel, S: SmtSolver>(
    environment: Environment<'a, K, S>,
    options: SimplificationOptions,
    pattern: PatternV,
    assume_defined: bool,
    rules: Seq<RewriteRuleV>,
    applied: Seq<RuleApplicationV>,
) -> bool {
    forall|i: int|
        0 <= i < applied.len() ==> one_from(
            environment,
            options,
            pattern,
            assume_defined,
            rules,
            #[trigger] applied[i],
        )
}

/// Whether `application` is a sound application of one of `rules` to a pattern.
pub open spec fn one_from<'a, K: Kernel, S: SmtSolver>(
    environment: Environment<'a, K, S>,
    options: SimplificationOptions,
    pattern: PatternV,
    assume_defined: bool,
    rules: Seq<RewriteRuleV>,
    application: RuleApplicationV,
) -> bool {
    exists|r: int|
        0 <= r < rules.len() && sound(
            scope_for(environment, options, pattern, assume_defined, #[trigger] rules[r]),
            application,
        )
}

/// The cases in which none of the applications is one.
pub open spec fn opposites(
    applied: Seq<RuleApplicationV>,
    trivial: Seq<TrivialApplicationV>,
) -> Seq<PredicateV> {
    Seq::new(applied.len(), |i: int| applied[i].remainder) + Seq::new(
        trivial.len(),
        |i: int| trivial[i].remainder,
    )
}

/// Whether no case is left of a pattern under `constraints`: one is known to be false, or a sort is
/// left without a constructor, or the solver says so.
pub open spec fn nothing_left<'a, K: Kernel, S: SmtSolver>(
    environment: Environment<'a, K, S>,
    constraints: Seq<PredicateV>,
) -> bool {
    ||| exists|i: int|
        0 <= i < constraints.len() && truth_of(#[trigger] constraints[i]) is False
    ||| violates_domain(*environment.definition, constraints)
    ||| environment.solver.satisfiability(constraints, Seq::empty()) == Ok::<
        SatisfiabilityV,
        SmtErrorV,
    >(SatisfiabilityV::Unsat)
}

/// Whether a step is about all cases of a pattern: its branches are the results of `applied`, and
/// what it leaves is the pattern in the case in which none of them applies, simplified to
/// `reduced`; nothing is left out unless nothing is left.
pub open spec fn cases_split<'a, K: Kernel, S: SmtSolver>(
    environment: Environment<'a, K, S>,
    options: SimplificationOptions,
    pattern: PatternV,
    result: RewriteResultV,
    applied: Seq<RuleApplicationV>,
    trivial: Seq<TrivialApplicationV>,
    reduced: Seq<PredicateV>,
) -> bool {
    &&& branches_of(result) == Seq::new(applied.len(), |i: int| applied[i].applied)
    &&& result is Branch ==> result->trivial == trivial
    &&& conjunction_simplified(
        environment.definition,
        environment.solver,
        opposites(applied, trivial),
        pattern.constraints,
        options,
    ) == Ok::<Seq<PredicateV>, SimplificationErrorV>(reduced)
    &&& match remainder_in(result) {
        Some(left) => {
            &&& left.pattern.term == pattern.term
            &&& all_among(pattern.constraints, left.pattern.constraints)
            &&& all_among(reduced, left.pattern.constraints)
        },
        None => nothing_left(environment, pattern.constraints + reduced),
    }
}

/// Whether a step takes the rules of group `group`: those of the groups before are refused, and
/// those of the group are refused or give their branches, and no others do.
pub open spec fn group_taken<'a, K: Kernel, S: SmtSolver>(
    environment: Environment<'a, K, S>,
    options: SimplificationOptions,
    pattern: PatternV,
    assume_defined: bool,
    groups: GroupsV,
    group: int,
    result: RewriteResultV,
    applied: Seq<RuleApplicationV>,
    trivial: Seq<TrivialApplicationV>,
    reduced: Seq<PredicateV>,
) -> bool {
    &&& 0 <= group < groups.len()
    &&& forall|i: int|
        0 <= i < group ==> all_refused(
            environment,
            options,
            pattern,
            assume_defined,
            (#[trigger] groups[i]).1,
        )
    &&& all_taken(
        environment,
        options,
        pattern,
        assume_defined,
        groups[group].1,
        applied,
        trivial,
    )
    &&& all_from(environment, options, pattern, assume_defined, groups[group].1, applied)
    &&& applied.len() + trivial.len() > 0
    &&& cases_split(environment, options, pattern, result, applied, trivial, reduced)
}

// ---------------------------------------------------------------------------------------------
// Groups
// ---------------------------------------------------------------------------------------------
proof fn lemma_taken_more<'a, K: Kernel, S: SmtSolver>(
    scope: RuleScopeV<'a, K, S>,
    applied: Seq<RuleApplicationV>,
    trivial: Seq<TrivialApplicationV>,
    more: Seq<RuleApplicationV>,
    more_trivial: Seq<TrivialApplicationV>,
)
    requires
        taken_into(scope, applied, trivial),
    ensures
        taken_into(scope, applied + more, trivial + more_trivial),
{
    let attempt = choose|attempt: RuleAttemptV| #[trigger] gives(scope, attempt) && match attempt {
        RuleAttemptV::NotApplicable => true,
        RuleAttemptV::Unified { applied: own, trivial: own_trivial } => {
            &&& forall|i: int| 0 <= i < own.len() ==> applied.contains(#[trigger] own[i])
            &&& forall|i: int|
                0 <= i < own_trivial.len() ==> trivial.contains(#[trigger] own_trivial[i])
        },
        RuleAttemptV::Indeterminate(_) => false,
    };
    if let RuleAttemptV::Unified { applied: own, trivial: own_trivial } = attempt {
        assert forall|i: int| 0 <= i < own.len() implies (applied + more).contains(
            #[trigger] own[i],
        ) by {
            assert(applied.contains(own[i]));
            let j: int = choose|j: int| 0 <= j < applied.len() && applied[j] == own[i];
            assert((applied + more)[j] == own[i]);
        }
        assert forall|i: int| 0 <= i < own_trivial.len() implies (trivial
            + more_trivial).contains(#[trigger] own_trivial[i]) by {
            assert(trivial.contains(own_trivial[i]));
            let j: int = choose|j: int| 0 <= j < trivial.len() && trivial[j] == own_trivial[i];
            assert((trivial + more_trivial)[j] == own_trivial[i]);
        }
    }
    assert(gives(scope, attempt));
}

proof fn lemma_taken_now<'a, K: Kernel, S: SmtSolver>(
    scope: RuleScopeV<'a, K, S>,
    counter: u64,
    applied: Seq<RuleApplicationV>,
    trivial: Seq<TrivialApplicationV>,
)
    ensures
        match rule_applied(scope, REFINEMENTS as nat, None, counter).0 {
            RuleAttemptV::NotApplicable => taken_into(scope, applied, trivial),
            RuleAttemptV::Unified { applied: own, trivial: own_trivial } => taken_into(
                scope,
                applied + own,
                trivial + own_trivial,
            ),
            RuleAttemptV::Indeterminate(_) => true,
        },
{
    let attempt = rule_applied(scope, REFINEMENTS as nat, None, counter).0;
    assert(gives(scope, attempt));
    if let RuleAttemptV::Unified { applied: own, trivial: own_trivial } = attempt {
        assert forall|i: int| 0 <= i < own.len() implies (applied + own).contains(
            #[trigger] own[i],
        ) by {
            assert((applied + own)[applied.len() + i] == own[i]);
        }
        assert forall|i: int| 0 <= i < own_trivial.len() implies (trivial + own_trivial).contains(
            #[trigger] own_trivial[i],
        ) by {
            assert((trivial + own_trivial)[trivial.len() + i] == own_trivial[i]);
        }
    }
}

proof fn lemma_from_joined<'a, K: Kernel, S: SmtSolver>(
    environment: Environment<'a, K, S>,
    options: SimplificationOptions,
    pattern: PatternV,
    assume_defined: bool,
    rules: Seq<RewriteRuleV>,
    applied: Seq<RuleApplicationV>,
    more: Seq<RuleApplicationV>,
    r: int,
)
    requires
        0 <= r < rules.len(),
        all_from(environment, options, pattern, assume_defined, rules, applied),
        all_sound(scope_for(environment, options, pattern, assume_defined, rules[r]), more),
    ensures
        all_from(environment, options, pattern, assume_defined, rules, applied + more),
{
    let all = applied + more;
    assert forall|i: int| 0 <= i < all.len() implies one_from(
        environment,
        options,
        pattern,
        assume_defined,
        rules,
        #[trigger] all[i],
    ) by {
        if i < applied.len() {
            assert(all[i] == applied[i]);
        } else {
            assert(all[i] == more[i - applied.len()]);
            assert(sound(
                scope_for(environment, options, pattern, assume_defined, rules[r]),
                all[i],
            ));
        }
    }
}

proof fn lemma_group<'a, K: Kernel, S: SmtSolver>(
    environment: Environment<'a, K, S>,
    options: SimplificationOptions,
    pattern: PatternV,
    assume_defined: bool,
    rules: Seq<RewriteRuleV>,
    found: GroupV,
    counter: u64,
    from: int,
)
    requires
        0 <= from <= rules.len(),
        all_taken(
            environment,
            options,
            pattern,
            assume_defined,
            rules.take(from),
            found.0,
            found.1,
        ),
        all_from(environment, options, pattern, assume_defined, rules, found.0),
    ensures
        match group_applied(
            environment,
            options,
            pattern,
            assume_defined,
            rules,
            found,
            counter,
            from,
        ).0 {
            Ok(group) => {
                &&& all_taken(
                    environment,
                    options,
                    pattern,
                    assume_defined,
                    rules,
                    group.0,
                    group.1,
                )
                &&& all_from(environment, options, pattern, assume_defined, rules, group.0)
            },
            Err(_) => true,
        },
    decreases rules.len() - from,
{
    if from < rules.len() {
        let scope = scope_for(environment, options, pattern, assume_defined, rules[from]);
        let (attempt, after) = rule_applied(scope, REFINEMENTS as nat, None, counter);
        law_applications_are_sound(scope, REFINEMENTS as nat, None, counter);
        lemma_taken_now(scope, counter, found.0, found.1);
        let more = rules.take(from + 1);
        match attempt {
            RuleAttemptV::NotApplicable => {
                assert forall|i: int| 0 <= i < more.len() implies taken_into(
                    scope_for(environment, options, pattern, assume_defined, #[trigger] more[i]),
                    found.0,
                    found.1,
                ) by {
                    if i < from {
                        assert(more[i] == rules.take(from)[i]);
                    }
                }
                lemma_group(
                    environment,
                    options,
                    pattern,
                    assume_defined,
                    rules,
                    found,
                    after,
                    from + 1,
                );
            },
            RuleAttemptV::Unified { applied, trivial } => {
                assert forall|i: int| 0 <= i < more.len() implies taken_into(
                    scope_for(environment, options, pattern, assume_defined, #[trigger] more[i]),
                    found.0 + applied,
                    found.1 + trivial,
                ) by {
                    if i < from {
                        assert(more[i] == rules.take(from)[i]);
                        lemma_taken_more(
                            scope_for(environment, options, pattern, assume_defined, more[i]),
                            found.0,
                            found.1,
                            applied,
                            trivial,
                        );
                    }
                }
                lemma_from_joined(
                    environment,
                    options,
                    pattern,
                    assume_defined,
                    rules,
                    found.0,
                    applied,
                    from,
                );
                lemma_group(
                    environment,
                    options,
                    pattern,
                    assume_defined,
                    rules,
                    (found.0 + applied, found.1 + trivial),
                    after,
                    from + 1,
                );
            },
            RuleAttemptV::Indeterminate(_) => {},
        }
    } else {
        assert(rules.take(from) =~= rules);
    }
}

proof fn lemma_applied_rules(
    applied: Seq<RuleApplicationV>,
    found: Seq<AppliedRuleV>,
    from: int,
)
    requires
        0 <= from <= applied.len(),
    ensures
        applied_rules(applied, found, from) == found + Seq::new(
            (applied.len() - from) as nat,
            |i: int| applied[from + i].applied,
        ),
    decreases applied.len() - from,
{
    if from < applied.len() {
        lemma_applied_rules(applied, found.push(applied[from].applied), from + 1);
    }
    assert(applied_rules(applied, found, from) =~= found + Seq::new(
        (applied.len() - from) as nat,
        |i: int| applied[from + i].applied,
    ));
}

proof fn lemma_applied_remainders(
    applied: Seq<RuleApplicationV>,
    found: Seq<PredicateV>,
    from: int,
)
    requires
        0 <= from <= applied.len(),
    ensures
        applied_remainders(applied, found, from) == found + Seq::new(
            (applied.len() - from) as nat,
            |i: int| applied[from + i].remainder,
        ),
    decreases applied.len() - from,
{
    if from < applied.len() {
        lemma_applied_remainders(applied, found.push(applied[from].remainder), from + 1);
    }
    assert(applied_remainders(applied, found, from) =~= found + Seq::new(
        (applied.len() - from) as nat,
        |i: int| applied[from + i].remainder,
    ));
}

proof fn lemma_trivial_remainders(
    trivial: Seq<TrivialApplicationV>,
    found: Seq<PredicateV>,
    from: int,
)
    requires
        0 <= from <= trivial.len(),
    ensures
        trivial_remainders(trivial, found, from) == found + Seq::new(
            (trivial.len() - from) as nat,
            |i: int| trivial[from + i].remainder,
        ),
    decreases trivial.len() - from,
{
    if from < trivial.len() {
        lemma_trivial_remainders(trivial, found.push(trivial[from].remainder), from + 1);
    }
    assert(trivial_remainders(trivial, found, from) =~= found + Seq::new(
        (trivial.len() - from) as nat,
        |i: int| trivial[from + i].remainder,
    ));
}

proof fn lemma_left(left: Seq<PredicateV>, right: Seq<PredicateV>)
    ensures
        all_among(left, unique_extension(left, right)),
        all_among(right, unique_extension(left, right)),
{
    assert forall|i: int| 0 <= i < left.len() implies unique_extension(left, right).contains(
        #[trigger] left[i],
    ) by {
        law_extension_contains(left, right, 0, left[i]);
    }
    assert forall|i: int| 0 <= i < right.len() implies unique_extension(left, right).contains(
        #[trigger] right[i],
    ) by {
        law_extension_contains(left, right, 0, right[i]);
    }
}

/// What a group of rules makes of a pattern is about all of its cases.
proof fn lemma_group_outcome<'a, K: Kernel, S: SmtSolver>(
    environment: Environment<'a, K, S>,
    options: SimplificationOptions,
    pattern: PatternV,
    group: GroupV,
) -> (reduced: Seq<PredicateV>)
    requires
        group.0.len() + group.1.len() > 0,
    ensures
        group_outcome(environment, options, pattern, group) is Indeterminate || cases_split(
            environment,
            options,
            pattern,
            group_outcome(environment, options, pattern, group),
            group.0,
            group.1,
            reduced,
        ),
        !(group_outcome(environment, options, pattern, group) is Stuck),
        !(group_outcome(environment, options, pattern, group) is Vacuous),
{
    let result = group_outcome(environment, options, pattern, group);
    let applied = applied_rules(group.0, Seq::empty(), 0);
    let results = Seq::new(group.0.len(), |i: int| group.0[i].applied);
    lemma_applied_rules(group.0, Seq::empty(), 0);
    assert(applied =~= results);
    lemma_applied_remainders(group.0, Seq::empty(), 0);
    let first = applied_remainders(group.0, Seq::empty(), 0);
    assert(first =~= Seq::new(group.0.len(), |i: int| group.0[i].remainder));
    lemma_trivial_remainders(group.1, first, 0);
    let all = trivial_remainders(group.1, first, 0);
    assert(all =~= opposites(group.0, group.1));
    match conjunction_simplified(
        environment.definition,
        environment.solver,
        all,
        pattern.constraints,
        options,
    ) {
        Ok(reduced) => {
            lemma_left(pattern.constraints, reduced);
            law_conjunction_false(reduced);
            let both = pattern.constraints + reduced;
            if conjunction_truth(reduced) is False {
                let i: int = choose|i: int|
                    0 <= i < reduced.len() && truth_of(#[trigger] reduced[i]) is False;
                assert(both[pattern.constraints.len() + i] == reduced[i]);
            }
            if result is Finished {
                assert(seq![applied[0]] =~= applied);
            }
            if result is Trivial {
                assert(applied =~= Seq::empty());
            }
            reduced
        },
        Err(_) => Seq::empty(),
    }
}

proof fn lemma_groups<'a, K: Kernel, S: SmtSolver>(
    environment: Environment<'a, K, S>,
    options: SimplificationOptions,
    pattern: PatternV,
    assume_defined: bool,
    groups: GroupsV,
    counter: u64,
    from: int,
) -> (grounds: (int, Seq<RuleApplicationV>, Seq<TrivialApplicationV>, Seq<PredicateV>))
    requires
        0 <= from <= groups.len(),
        forall|i: int|
            0 <= i < from ==> all_refused(
                environment,
                options,
                pattern,
                assume_defined,
                (#[trigger] groups[i]).1,
            ),
    ensures
        match groups_stepped(
            environment,
            options,
            pattern,
            assume_defined,
            groups,
            counter,
            from,
        ).0 {
            RewriteResultV::Stuck(left) => {
                &&& left == pattern
                &&& forall|i: int|
                    0 <= i < groups.len() ==> all_refused(
                        environment,
                        options,
                        pattern,
                        assume_defined,
                        (#[trigger] groups[i]).1,
                    )
            },
            RewriteResultV::Vacuous(_) => false,
            RewriteResultV::Indeterminate { .. } => true,
            result => group_taken(
                environment,
                options,
                pattern,
                assume_defined,
                groups,
                grounds.0,
                result,
                grounds.1,
                grounds.2,
                grounds.3,
            ),
        },
    decreases groups.len() - from,
{
    if from < groups.len() {
        let rules = groups[from].1;
        let none: GroupV = (Seq::empty(), Seq::empty());
        assert(rules.take(0) =~= Seq::empty());
        lemma_group(
            environment,
            options,
            pattern,
            assume_defined,
            rules,
            none,
            counter,
            0,
        );
        match group_applied(
            environment,
            options,
            pattern,
            assume_defined,
            rules,
            none,
            counter,
            0,
        ) {
            (Ok(group), after) => {
                if group.0.len() == 0 && group.1.len() == 0 {
                    assert(group.0 =~= Seq::empty());
                    assert(group.1 =~= Seq::empty());
                    lemma_groups(
                        environment,
                        options,
                        pattern,
                        assume_defined,
                        groups,
                        after,
                        from + 1,
                    )
                } else {
                    let reduced = lemma_group_outcome(environment, options, pattern, group);
                    (from, group.0, group.1, reduced)
                }
            },
            _ => (0, Seq::empty(), Seq::empty(), Seq::empty()),
        }
    } else {
        (0, Seq::empty(), Seq::empty(), Seq::empty())
    }
}

/// A step that takes all rules of a priority loses no case. It is stuck only where no rule gives
/// anything. Else the rules of the first priority of which one gives something are taken: each is
/// refused or has all of its results among the branches, and each branch is a sound application of
/// one of them. And what is left is the pattern in the case in which none of them applies, unless
/// that cannot be.
pub proof fn law_step_loses_no_case<'a, K: Kernel, S: SmtSolver>(
    environment: Environment<'a, K, S>,
    pattern: PatternV,
    counter: u64,
    options: SimplificationOptions,
    assume_defined: bool,
) -> (grounds: (int, Seq<RuleApplicationV>, Seq<TrivialApplicationV>, Seq<PredicateV>))
    ensures
        ({
            let groups = groups_for(
                environment.definition.rewrite_theory@,
                index_of(pattern.term),
            );
            match stepped(
                environment,
                pattern,
                counter,
                options,
                ExecutionMode::All,
                assume_defined,
            ).0 {
                RewriteResultV::Stuck(left) => {
                    &&& left == pattern
                    &&& forall|i: int|
                        0 <= i < groups.len() ==> all_refused(
                            environment,
                            options,
                            pattern,
                            assume_defined,
                            (#[trigger] groups[i]).1,
                        )
                },
                RewriteResultV::Vacuous(left) => left == pattern && exists|i: int|
                    0 <= i < pattern.constraints.len() && truth_of(
                        #[trigger] pattern.constraints[i],
                    ) is False,
                RewriteResultV::Indeterminate { .. } => true,
                result => group_taken(
                    environment,
                    options,
                    pattern,
                    assume_defined,
                    groups,
                    grounds.0,
                    result,
                    grounds.1,
                    grounds.2,
                    grounds.3,
                ),
            }
        }),
{
    reveal(stepped);
    let groups = groups_for(environment.definition.rewrite_theory@, index_of(pattern.term));
    law_conjunction_false(pattern.constraints);
    lemma_groups(environment, options, pattern, assume_defined, groups, counter, 0)
}

// ---------------------------------------------------------------------------------------------
// Rules one by one
// ---------------------------------------------------------------------------------------------
/// Whether, when a rule is tried on what the rules before it have left, its results are among the
/// branches, and `next` is what is left then: the same where it is refused, else the constraints
/// of the pattern and what the constraints before and the opposite cases simplify to.
pub open spec fn rule_passed<'a, K: Kernel, S: SmtSolver>(
    environment: Environment<'a, K, S>,
    options: SimplificationOptions,
    pattern: PatternV,
    rule: RewriteRuleV,
    left: PatternV,
    next: PatternV,
    branches: Seq<AppliedRuleV>,
) -> bool {
    exists|attempt: RuleAttemptV|
        #[trigger] gives(scope_for(environment, options, left, false, rule), attempt)
            && attempt_sound(scope_for(environment, options, left, false, rule), attempt)
            && match attempt {
            RuleAttemptV::NotApplicable => next == left,
            RuleAttemptV::Indeterminate(_) => false,
            RuleAttemptV::Unified { applied, trivial } => {
                &&& forall|i: int|
                    0 <= i < applied.len() ==> branches.contains((#[trigger] applied[i]).applied)
                &&& next.term == pattern.term
                &&& all_among(pattern.constraints, next.constraints)
                &&& exists|asked: Seq<PredicateV>|
                    #[trigger] narrowed_to(environment, options, pattern, asked, next)
                        && all_among(left.constraints, asked) && all_among(
                        opposites(applied, trivial),
                        asked,
                    ) && asked_only(asked, left.constraints, opposites(applied, trivial))
            },
        }
}

/// Whether all of `asked` are among `left` or among `right`.
pub open spec fn asked_only(
    asked: Seq<PredicateV>,
    left: Seq<PredicateV>,
    right: Seq<PredicateV>,
) -> bool {
    forall|i: int|
        0 <= i < asked.len() ==> left.contains(#[trigger] asked[i]) || right.contains(asked[i])
}

/// Whether the constraints of `next` hold what `asked` simplifies to where those of the pattern
/// hold.
pub open spec fn narrowed_to<'a, K: Kernel, S: SmtSolver>(
    environment: Environment<'a, K, S>,
    options: SimplificationOptions,
    pattern: PatternV,
    asked: Seq<PredicateV>,
    next: PatternV,
) -> bool {
    let reduced = conjunction_simplified(
        environment.definition,
        environment.solver,
        asked,
        pattern.constraints,
        options,
    );
    reduced is Ok && all_among(reduced->Ok_0, next.constraints)
}

/// Whether `chain` is what the first of `rules` leave of a pattern, one after the other.
pub open spec fn is_chain<'a, K: Kernel, S: SmtSolver>(
    environment: Environment<'a, K, S>,
    options: SimplificationOptions,
    pattern: PatternV,
    rules: Seq<RewriteRuleV>,
    chain: Seq<PatternV>,
    branches: Seq<AppliedRuleV>,
) -> bool {
    &&& 1 <= chain.len() <= rules.len() + 1
    &&& chain[0] == pattern
    &&& forall|k: int|
        0 <= k < chain.len() - 1 ==> rule_passed(
            environment,
            options,
            pattern,
            #[trigger] rules[k],
            chain[k],
            chain[k + 1],
            branches,
        )
}

proof fn lemma_push_keeps(predicates: Seq<PredicateV>, predicate: PredicateV)
    ensures
        push_unique(predicates, predicate).contains(predicate),
        forall|p: PredicateV| #[trigger] push_unique(predicates, predicate).contains(p)
            <==> predicates.contains(p) || p == predicate,
{
    let pushed = push_unique(predicates, predicate);
    if !predicates.contains(predicate) {
        assert(pushed[predicates.len() as int] == predicate);
    }
    assert forall|p: PredicateV| #[trigger] pushed.contains(p) <==> predicates.contains(p) || p
        == predicate by {
        if predicates.contains(p) {
            let i: int = choose|i: int| 0 <= i < predicates.len() && predicates[i] == p;
            assert(pushed[i] == p);
        }
    }
}

proof fn lemma_with_applications(state: SequentialV, applied: Seq<RuleApplicationV>, from: int)
    requires
        0 <= from <= applied.len(),
    ensures
        ({
            let next = with_applications(state, applied, from);
            &&& next.remaining.term == state.remaining.term
            &&& next.trivial == state.trivial
            &&& state.applied.is_prefix_of(next.applied)
            &&& forall|i: int|
                from <= i < applied.len() ==> next.applied.contains((#[trigger] applied[i]).applied)
                    && next.remaining.constraints.contains(applied[i].remainder)
            &&& forall|p: PredicateV|
                state.remaining.constraints.contains(p)
                    ==> #[trigger] next.remaining.constraints.contains(p)
            &&& forall|p: PredicateV| #[trigger]
                next.remaining.constraints.contains(p) ==> state.remaining.constraints.contains(p)
                    || exists|i: int| from <= i < applied.len() && (#[trigger] applied[i]).remainder
                    == p
        }),
    decreases applied.len() - from,
{
    if from < applied.len() {
        let narrowed = narrowed_by(state, applied[from].remainder);
        lemma_push_keeps(state.remaining.constraints, applied[from].remainder);
        let after = SequentialV {
            applied: narrowed.applied.push(applied[from].applied),
            ..narrowed
        };
        lemma_with_applications(after, applied, from + 1);
        let next = with_applications(state, applied, from);
        assert(after.applied[state.applied.len() as int] == applied[from].applied);
        assert(next.applied[state.applied.len() as int] == applied[from].applied);
        assert(after.remaining.constraints.contains(applied[from].remainder));
    }
}

proof fn lemma_with_trivial(state: SequentialV, trivial: Seq<TrivialApplicationV>, from: int)
    requires
        0 <= from <= trivial.len(),
    ensures
        ({
            let next = with_trivial(state, trivial, from);
            &&& next.remaining.term == state.remaining.term
            &&& next.applied == state.applied
            &&& forall|i: int|
                from <= i < trivial.len() ==> next.remaining.constraints.contains(
                    (#[trigger] trivial[i]).remainder,
                )
            &&& forall|p: PredicateV|
                state.remaining.constraints.contains(p)
                    ==> #[trigger] next.remaining.constraints.contains(p)
            &&& forall|p: PredicateV| #[trigger]
                next.remaining.constraints.contains(p) ==> state.remaining.constraints.contains(p)
                    || exists|i: int| from <= i < trivial.len() && (#[trigger] trivial[i]).remainder
                    == p
        }),
    decreases trivial.len() - from,
{
    if from < trivial.len() {
        let narrowed = narrowed_by(state, trivial[from].remainder);
        lemma_push_keeps(state.remaining.constraints, trivial[from].remainder);
        let after = SequentialV { trivial: narrowed.trivial.push(trivial[from]), ..narrowed };
        lemma_with_trivial(after, trivial, from + 1);
        assert(after.remaining.constraints.contains(trivial[from].remainder));
    }
}

/// What taking the results of a rule does.
proof fn lemma_rule_taken<'a, K: Kernel, S: SmtSolver>(
    environment: Environment<'a, K, S>,
    options: SimplificationOptions,
    pattern: PatternV,
    rule: RewriteRuleV,
    state: SequentialV,
    applied: Seq<RuleApplicationV>,
    trivial: Seq<TrivialApplicationV>,
    counter: u64,
)
    requires
        state.remaining.term == pattern.term,
        rule_applied(
            scope_for(environment, options, state.remaining, false, rule),
            REFINEMENTS as nat,
            None,
            counter,
        ).0 == (RuleAttemptV::Unified { applied, trivial }),
    ensures
        match rule_taken(
            environment,
            options,
            pattern.constraints,
            rule,
            state,
            (applied, trivial),
        ) {
            Ok(next) => {
                &&& next.remaining.term == pattern.term
                &&& state.applied.is_prefix_of(next.applied)
                &&& rule_passed(
                    environment,
                    options,
                    pattern,
                    rule,
                    state.remaining,
                    next.remaining,
                    next.applied,
                )
            },
            Err(outcome) => outcome is Indeterminate,
        },
{
    let scope = scope_for(environment, options, state.remaining, false, rule);
    let attempt = RuleAttemptV::Unified { applied, trivial };
    law_applications_are_sound(scope, REFINEMENTS as nat, None, counter);
    let first = with_applications(state, applied, 0);
    let second = with_trivial(first, trivial, 0);
    lemma_with_applications(state, applied, 0);
    lemma_with_trivial(first, trivial, 0);
    let asked = second.remaining.constraints;
    let cases = opposites(applied, trivial);
    if let Ok(next) = rule_taken(
        environment,
        options,
        pattern.constraints,
        rule,
        state,
        (applied, trivial),
    ) {
        let reduced = conjunction_simplified(
            environment.definition,
            environment.solver,
            asked,
            pattern.constraints,
            options,
        )->Ok_0;
        lemma_left(pattern.constraints, reduced);
        assert(narrowed_to(environment, options, pattern, asked, next.remaining));
        assert forall|i: int| 0 <= i < state.remaining.constraints.len() implies asked.contains(
            #[trigger] state.remaining.constraints[i],
        ) by {
            assert(state.remaining.constraints.contains(state.remaining.constraints[i]));
            assert(first.remaining.constraints.contains(state.remaining.constraints[i]));
        }
        assert forall|i: int| 0 <= i < cases.len() implies asked.contains(#[trigger] cases[i]) by {
            if i < applied.len() {
                assert(cases[i] == applied[i].remainder);
                assert(first.remaining.constraints.contains(cases[i]));
            } else {
                assert(cases[i] == trivial[i - applied.len()].remainder);
            }
        }
        assert forall|i: int|
            0 <= i < asked.len() implies state.remaining.constraints.contains(#[trigger] asked[i])
            || cases.contains(asked[i]) by {
            let p = asked[i];
            assert(asked.contains(p));
            if first.remaining.constraints.contains(p) {
                if !state.remaining.constraints.contains(p) {
                    let j: int = choose|j: int|
                        0 <= j < applied.len() && (#[trigger] applied[j]).remainder == p;
                    assert(cases[j] == p);
                }
            } else {
                let j: int = choose|j: int|
                    0 <= j < trivial.len() && (#[trigger] trivial[j]).remainder == p;
                assert(cases[applied.len() + j] == p);
            }
        }
        assert(asked_only(asked, state.remaining.constraints, cases));
        assert(gives(scope, attempt));
        assert(rule_passed(
            environment,
            options,
            pattern,
            rule,
            state.remaining,
            next.remaining,
            next.applied,
        ));
    }
}

proof fn lemma_passed_more<'a, K: Kernel, S: SmtSolver>(
    environment: Environment<'a, K, S>,
    options: SimplificationOptions,
    pattern: PatternV,
    rule: RewriteRuleV,
    left: PatternV,
    next: PatternV,
    branches: Seq<AppliedRuleV>,
    more: Seq<AppliedRuleV>,
)
    requires
        rule_passed(environment, options, pattern, rule, left, next, branches),
        branches.is_prefix_of(more),
    ensures
        rule_passed(environment, options, pattern, rule, left, next, more),
{
    let scope = scope_for(environment, options, left, false, rule);
    let attempt = choose|attempt: RuleAttemptV|
        #[trigger] gives(scope, attempt) && attempt_sound(scope, attempt) && match attempt {
            RuleAttemptV::NotApplicable => next == left,
            RuleAttemptV::Indeterminate(_) => false,
            RuleAttemptV::Unified { applied, trivial } => {
                &&& forall|i: int|
                    0 <= i < applied.len() ==> branches.contains((#[trigger] applied[i]).applied)
                &&& next.term == pattern.term
                &&& all_among(pattern.constraints, next.constraints)
                &&& exists|asked: Seq<PredicateV>|
                    #[trigger] narrowed_to(environment, options, pattern, asked, next)
                        && all_among(left.constraints, asked) && all_among(
                        opposites(applied, trivial),
                        asked,
                    ) && asked_only(asked, left.constraints, opposites(applied, trivial))
            },
        };
    if let RuleAttemptV::Unified { applied, trivial } = attempt {
        assert forall|i: int| 0 <= i < applied.len() implies more.contains(
            (#[trigger] applied[i]).applied,
        ) by {
            assert(branches.contains(applied[i].applied));
            let j: int = choose|j: int|
                0 <= j < branches.len() && branches[j] == applied[i].applied;
            assert(more[j] == applied[i].applied);
        }
    }
    assert(gives(scope, attempt));
}

proof fn lemma_chain_more<'a, K: Kernel, S: SmtSolver>(
    environment: Environment<'a, K, S>,
    options: SimplificationOptions,
    pattern: PatternV,
    rules: Seq<RewriteRuleV>,
    chain: Seq<PatternV>,
    next: PatternV,
    branches: Seq<AppliedRuleV>,
    more: Seq<AppliedRuleV>,
)
    requires
        is_chain(environment, options, pattern, rules, chain, branches),
        chain.len() <= rules.len(),
        branches.is_prefix_of(more),
        rule_passed(
            environment,
            options,
            pattern,
            rules[chain.len() - 1],
            chain.last(),
            next,
            more,
        ),
    ensures
        is_chain(environment, options, pattern, rules, chain.push(next), more),
{
    let longer = chain.push(next);
    assert forall|k: int| 0 <= k < longer.len() - 1 implies rule_passed(
        environment,
        options,
        pattern,
        #[trigger] rules[k],
        longer[k],
        longer[k + 1],
        more,
    ) by {
        if k < chain.len() - 1 {
            assert(longer[k] == chain[k] && longer[k + 1] == chain[k + 1]);
            lemma_passed_more(
                environment,
                options,
                pattern,
                rules[k],
                chain[k],
                chain[k + 1],
                branches,
                more,
            );
        }
    }
}

/// Whether a chain ends as it should.
pub open spec fn chain_ends<'a, K: Kernel, S: SmtSolver>(
    environment: Environment<'a, K, S>,
    rules: Seq<RewriteRuleV>,
    chain: Seq<PatternV>,
    result: RewriteResultV,
) -> bool {
    &&& chain.len() == rules.len() + 1 || exists|i: int|
        0 <= i < chain.last().constraints.len() && truth_of(
            #[trigger] chain.last().constraints[i],
        ) is False
    &&& match remainder_in(result) {
        Some(left) => left.pattern == chain.last(),
        None => result is Stuck || nothing_left(environment, chain.last().constraints),
    }
}

proof fn lemma_sequence<'a, K: Kernel, S: SmtSolver>(
    environment: Environment<'a, K, S>,
    options: SimplificationOptions,
    pattern: PatternV,
    rules: Seq<RewriteRuleV>,
    state: SequentialV,
    counter: u64,
    from: int,
    chain: Seq<PatternV>,
) -> (whole: Seq<PatternV>)
    requires
        0 <= from <= rules.len(),
        chain.len() == from + 1,
        is_chain(environment, options, pattern, rules, chain, state.applied),
        chain.last() == state.remaining,
        state.remaining.term == pattern.term,
    ensures
        ({
            let result = sequence_stepped(
                environment,
                options,
                pattern,
                rules,
                state,
                counter,
                from,
            ).0;
            result is Indeterminate || (is_chain(
                environment,
                options,
                pattern,
                rules,
                whole,
                branches_of(result),
            ) && chain_ends(environment, rules, whole, result))
        }),
    decreases rules.len() - from,
{
    law_conjunction_false(state.remaining.constraints);
    if from >= rules.len() || conjunction_truth(state.remaining.constraints) is False {
        let result = sequence_outcome(environment, pattern, state);
        if result is Finished {
            assert(seq![state.applied[0]] =~= state.applied);
        }
        if result is Trivial || result is Stuck {
            assert(state.applied =~= Seq::empty());
        }
        chain
    } else {
        let rule = rules[from];
        let scope = scope_for(environment, options, state.remaining, false, rule);
        match rule_applied(scope, REFINEMENTS as nat, None, counter) {
            (RuleAttemptV::NotApplicable, after) => {
                assert(gives(scope, RuleAttemptV::NotApplicable));
                assert(rule_passed(
                    environment,
                    options,
                    pattern,
                    rule,
                    state.remaining,
                    state.remaining,
                    state.applied,
                ));
                lemma_chain_more(
                    environment,
                    options,
                    pattern,
                    rules,
                    chain,
                    state.remaining,
                    state.applied,
                    state.applied,
                );
                lemma_sequence(
                    environment,
                    options,
                    pattern,
                    rules,
                    state,
                    after,
                    from + 1,
                    chain.push(state.remaining),
                )
            },
            (RuleAttemptV::Indeterminate(_), _) => chain,
            (RuleAttemptV::Unified { applied, trivial }, after) => {
                lemma_rule_taken(
                    environment,
                    options,
                    pattern,
                    rule,
                    state,
                    applied,
                    trivial,
                    counter,
                );
                match rule_taken(
                    environment,
                    options,
                    pattern.constraints,
                    rule,
                    state,
                    (applied, trivial),
                ) {
                    Ok(next) => {
                        lemma_chain_more(
                            environment,
                            options,
                            pattern,
                            rules,
                            chain,
                            next.remaining,
                            state.applied,
                            next.applied,
                        );
                        lemma_sequence(
                            environment,
                            options,
                            pattern,
                            rules,
                            next,
                            after,
                            from + 1,
                            chain.push(next.remaining),
                        )
                    },
                    Err(_) => chain,
                }
            },
        }
    }
}

/// A step that tries the rules one by one loses no case. There is a chain of what is left, from the
/// pattern on: each rule is tried on what the rules before it left, is refused or has all of its
/// results among the branches, and leaves the case in which it does not apply. All rules are
/// tried, unless nothing is left before; and what the step leaves is the end of the chain.
pub proof fn law_sequential_step_loses_no_case<'a, K: Kernel, S: SmtSolver>(
    environment: Environment<'a, K, S>,
    pattern: PatternV,
    counter: u64,
    options: SimplificationOptions,
) -> (chain: Seq<PatternV>)
    ensures
        ({
            let rules = rules_of(
                groups_for(environment.definition.rewrite_theory@, index_of(pattern.term)),
                Seq::empty(),
                0,
            );
            let result = stepped(
                environment,
                pattern,
                counter,
                options,
                ExecutionMode::Any,
                false,
            ).0;
            ||| result is Indeterminate
            ||| result == RewriteResultV::Vacuous(pattern) && exists|i: int|
                0 <= i < pattern.constraints.len() && truth_of(
                    #[trigger] pattern.constraints[i],
                ) is False
            ||| is_chain(
                environment,
                options,
                pattern,
                rules,
                chain,
                branches_of(result),
            ) && chain_ends(environment, rules, chain, result)
        }),
{
    reveal(stepped);
    let rules = rules_of(
        groups_for(environment.definition.rewrite_theory@, index_of(pattern.term)),
        Seq::empty(),
        0,
    );
    law_conjunction_false(pattern.constraints);
    lemma_sequence(
        environment,
        options,
        pattern,
        rules,
        sequence_start(pattern),
        counter,
        0,
        seq![pattern],
    )
}

} // verus!
