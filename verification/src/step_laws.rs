//! What holds of every rewrite step.

use vstd::prelude::*;
use crate::applicability::{
    applicability_of, match_completed, match_knowledge, match_settled, outcomes_applied,
    outcomes_of, requirements, requirements_open, rule_finished,
};
use crate::apply::{
    branches_applied, indeterminate_planned, planned, rule_applied, solution_match,
    solutions_applied, PlanV, REFINEMENTS,
};
use crate::apply_parts::{
    aliases, alternative_applied, bindings_without, remainder_of, trivially_applied, ApplicabilityV,
    RuleScopeV,
};
use crate::collections::CollectionSolutionV;
use crate::equations::groups_for;
use crate::index::{law_extension_keeps_prefix, unique_extension};
use crate::kernel::Kernel;
use crate::matcher::{definition_context, terms_matched};
use crate::matching::{MatchMode, MatchResultV};
use crate::pattern::PatternV;
use crate::predicate::PredicateV;
use crate::rewrite_types::{
    AppliedRuleV, PartialRuleMatchV, RewriteResultV, RhsAlternativeAttemptV, RuleApplicationV,
    RuleAttemptV, TrivialApplicationV,
};
use crate::rule::{index_of, GroupsV, RewriteRuleV, RhsAlternativeV};
use crate::simplify_parts::Environment;
use crate::simplify_types::SimplificationOptions;
use crate::solver::SmtSolver;
use crate::step::{
    applied_rules, group_applied, group_outcome, groups_stepped, narrowed_by, rule_taken, rules_of,
    sequence_start, sequence_stepped, stepped, with_applications, with_trivial, ExecutionMode,
    GroupV, SequentialV,
};
use crate::substitution::SubstitutionV;
use crate::term::{TermV, VariableV};
use crate::truth::conjunction_truth;

verus! {

/// Whether an application is one of `rule` to a pattern with the given term. Its constraints are
/// those of the pattern, extended by the predicates that the rule adds; and of its bindings, those
/// for the rule leave out the aliases of terms.
pub open spec fn applies_rule(applied: AppliedRuleV, rule: RewriteRuleV, term: TermV) -> bool {
    &&& applied.unique_id == rule.attributes.unique_id
    &&& applied.label == rule.attributes.label
    &&& applied.before.term == term
    &&& applied.pattern.constraints == unique_extension(
        applied.before.constraints,
        applied.rule_predicates,
    )
    &&& applied.before.constraints.is_prefix_of(applied.pattern.constraints)
    &&& applied.rule_substitution == bindings_without(
        applied.substitution,
        aliases(rule.lhs, Seq::empty()),
        Seq::empty(),
        0,
    )
}

/// Whether all applications are of `rule` to a pattern with the given term.
pub open spec fn all_apply(
    applied: Seq<RuleApplicationV>,
    rule: RewriteRuleV,
    term: TermV,
) -> bool {
    forall|i: int|
        0 <= i < applied.len() ==> applies_rule((#[trigger] applied[i]).applied, rule, term)
}

/// Whether an application without a result is one of `rule`, and what it leaves is the opposite of
/// the case in which it applies.
pub open spec fn trivially_applies(trivial: TrivialApplicationV, rule: RewriteRuleV) -> bool {
    trivial.rule_id == rule.attributes.unique_id && trivial.label == rule.attributes.label
        && trivial.remainder == remainder_of(trivial.applicability)
}

/// Whether all applications without a result are of `rule`.
pub open spec fn all_trivial(trivial: Seq<TrivialApplicationV>, rule: RewriteRuleV) -> bool {
    forall|i: int| 0 <= i < trivial.len() ==> trivially_applies(#[trigger] trivial[i], rule)
}

/// Whether what an attempt gives comes from the rule and the pattern of its scope.
spec fn comes_from<'a, K: Kernel, S: SmtSolver>(
    attempt: RuleAttemptV,
    scope: RuleScopeV<'a, K, S>,
) -> bool {
    match attempt {
        RuleAttemptV::Unified { applied, trivial } => all_apply(
            applied,
            scope.rule,
            scope.pattern.term,
        ) && all_trivial(trivial, scope.rule),
        _ => true,
    }
}

proof fn lemma_all_added(
    left: Seq<RuleApplicationV>,
    right: Seq<RuleApplicationV>,
    left_trivial: Seq<TrivialApplicationV>,
    right_trivial: Seq<TrivialApplicationV>,
    rule: RewriteRuleV,
    term: TermV,
)
    requires
        all_apply(left, rule, term),
        all_apply(right, rule, term),
        all_trivial(left_trivial, rule),
        all_trivial(right_trivial, rule),
    ensures
        all_apply(left + right, rule, term),
        all_trivial(left_trivial + right_trivial, rule),
{
    let applied = left + right;
    assert forall|i: int| 0 <= i < applied.len() implies applies_rule(
        (#[trigger] applied[i]).applied,
        rule,
        term,
    ) by {
        if i < left.len() {
            assert(applied[i] == left[i]);
        } else {
            assert(applied[i] == right[i - left.len()]);
        }
    }
    let trivial = left_trivial + right_trivial;
    assert forall|i: int| 0 <= i < trivial.len() implies trivially_applies(
        #[trigger] trivial[i],
        rule,
    ) by {
        if i < left_trivial.len() {
            assert(trivial[i] == left_trivial[i]);
        } else {
            assert(trivial[i] == right_trivial[i - left_trivial.len()]);
        }
    }
}

proof fn lemma_indeterminate_plan_stops<'a, K: Kernel, S: SmtSolver>(
    scope: RuleScopeV<'a, K, S>,
    substitution: SubstitutionV,
    remainder: Seq<(TermV, TermV)>,
    conditions: Seq<PredicateV>,
    counter: u64,
)
    ensures
        match indeterminate_planned(scope, substitution, remainder, conditions, counter).0 {
            PlanV::Stop(attempt) => !(attempt is Unified),
            _ => true,
        },
{
}

#[verifier::spinoff_prover]
pub proof fn lemma_plan_stops<'a, K: Kernel, S: SmtSolver>(
    scope: RuleScopeV<'a, K, S>,
    matched: Option<PartialRuleMatchV>,
    counter: u64,
)
    ensures
        match planned(scope, matched, counter).0 {
            PlanV::Stop(attempt) => !(attempt is Unified),
            _ => true,
        },
{
    match matched {
        Some(matched) => {
            lemma_indeterminate_plan_stops(
                scope,
                matched.substitution,
                matched.remainder,
                matched.conditions,
                counter,
            );
        },
        None => {
            let context = definition_context(MatchMode::Rewrite, scope.definition);
            if let MatchResultV::Indeterminate { substitution, remainder } = terms_matched(
                context,
                scope.rule.lhs,
                scope.pattern.term,
            ) {
                lemma_indeterminate_plan_stops(
                    scope,
                    substitution,
                    remainder,
                    Seq::empty(),
                    counter,
                );
            }
        },
    }
}

proof fn lemma_settled<'a, K: Kernel, S: SmtSolver>(
    scope: RuleScopeV<'a, K, S>,
    substitution: SubstitutionV,
    inherited: Seq<PredicateV>,
    conditions: Seq<PredicateV>,
)
    ensures
        match match_settled(scope, substitution, inherited, conditions) {
            Err(attempt) => comes_from(attempt, scope),
            Ok(_) => true,
        },
{
}

proof fn lemma_required<'a, K: Kernel, S: SmtSolver>(
    scope: RuleScopeV<'a, K, S>,
    substitution: SubstitutionV,
    conditions: Seq<PredicateV>,
)
    ensures
        match requirements(scope, substitution, conditions) {
            Err(attempt) => comes_from(attempt, scope),
            Ok(_) => true,
        },
{
}

proof fn lemma_alternative<'a, K: Kernel, S: SmtSolver>(
    scope: RuleScopeV<'a, K, S>,
    applicability: ApplicabilityV,
    rhs: TermV,
    ensured: Seq<PredicateV>,
    known: Seq<PredicateV>,
)
    ensures
        match alternative_applied(scope, applicability, rhs, ensured, known) {
            RhsAlternativeAttemptV::Applied(application) => applies_rule(
                application.applied,
                scope.rule,
                scope.pattern.term,
            ),
            _ => true,
        },
{
    if let RhsAlternativeAttemptV::Applied(application) = alternative_applied(
        scope,
        applicability,
        rhs,
        ensured,
        known,
    ) {
        law_extension_keeps_prefix(
            scope.pattern.constraints,
            application.applied.rule_predicates,
            0,
        );
        let after = application.applied.pattern.constraints;
        let before = scope.pattern.constraints;
        assert forall|i: int| 0 <= i < before.len() implies before[i] == after[i] by {
            assert(after.take(before.len() as int)[i] == after[i]);
        }
    }
}

proof fn lemma_outcomes<'a, K: Kernel, S: SmtSolver>(
    scope: RuleScopeV<'a, K, S>,
    applicability: ApplicabilityV,
    outcomes: Seq<RhsAlternativeV>,
    known: Seq<PredicateV>,
    applied: Seq<RuleApplicationV>,
    trivial: Seq<TrivialApplicationV>,
    from: int,
)
    requires
        all_apply(applied, scope.rule, scope.pattern.term),
        all_trivial(trivial, scope.rule),
    ensures
        comes_from(
            outcomes_applied(scope, applicability, outcomes, known, applied, trivial, from),
            scope,
        ),
    decreases outcomes.len() - from,
{
    if from < outcomes.len() {
        let ensured = unique_extension(scope.rule.ensures, outcomes[from].ensures);
        lemma_alternative(scope, applicability, outcomes[from].term, ensured, known);
        match alternative_applied(scope, applicability, outcomes[from].term, ensured, known) {
            RhsAlternativeAttemptV::Applied(application) => {
                lemma_outcomes(
                    scope,
                    applicability,
                    outcomes,
                    known,
                    applied.push(application),
                    trivial,
                    from + 1,
                );
            },
            RhsAlternativeAttemptV::Trivial => {
                lemma_outcomes(
                    scope,
                    applicability,
                    outcomes,
                    known,
                    applied,
                    trivial.push(trivially_applied(scope.rule, applicability.condition)),
                    from + 1,
                );
            },
            RhsAlternativeAttemptV::Indeterminate(_) => {},
        }
    }
}

proof fn lemma_finished<'a, K: Kernel, S: SmtSolver>(
    scope: RuleScopeV<'a, K, S>,
    substitution: SubstitutionV,
    conditions: Seq<PredicateV>,
    required: Seq<PredicateV>,
)
    ensures
        comes_from(rule_finished(scope, substitution, conditions, required), scope),
{
    if let Ok(unclear) = requirements_open(scope, conditions, required) {
        if let Ok(applicability) = applicability_of(scope, substitution, conditions, unclear) {
            if let Some(outcomes) = outcomes_of(scope.rule) {
                lemma_outcomes(
                    scope,
                    applicability,
                    outcomes,
                    unique_extension(match_knowledge(scope, conditions), unclear),
                    Seq::empty(),
                    Seq::empty(),
                    0,
                );
            }
        }
    }
}

#[verifier::spinoff_prover]
#[verifier::rlimit(40)]
proof fn lemma_applied<'a, K: Kernel, S: SmtSolver>(
    scope: RuleScopeV<'a, K, S>,
    fuel: nat,
    matched: Option<PartialRuleMatchV>,
    counter: u64,
)
    ensures
        comes_from(rule_applied(scope, fuel, matched, counter).0, scope),
    decreases fuel, 0int, 0int,
{
    reveal(rule_applied);
    lemma_plan_stops(scope, matched, counter);
    let (plan, after) = planned(scope, matched, counter);
    match plan {
        PlanV::Stop(attempt) => {},
        PlanV::Go { substitution, conditions, inherited } => {
            lemma_settled(scope, substitution, inherited, conditions);
            if let Ok((substitution, conditions)) = match_settled(
                scope,
                substitution,
                inherited,
                conditions,
            ) {
                lemma_required(scope, substitution, conditions);
                if let Ok(required) = requirements(scope, substitution, conditions) {
                    lemma_finished(scope, substitution, conditions, required);
                    if let Some(refined) = match_completed(
                        scope,
                        substitution,
                        conditions,
                        required,
                    ) {
                        if fuel > 0 {
                            lemma_applied(scope, (fuel - 1) as nat, Some(refined), after);
                        }
                    }
                }
            }
        },
        PlanV::Branches(matches) => {
            if fuel > 0 {
                lemma_branches(
                    scope,
                    (fuel - 1) as nat,
                    matches,
                    Seq::empty(),
                    Seq::empty(),
                    after,
                    0,
                );
            }
        },
        PlanV::Collections { solutions, remainder, inherited } => {
            if fuel > 0 {
                lemma_solutions(
                    scope,
                    (fuel - 1) as nat,
                    solutions,
                    remainder,
                    inherited,
                    Seq::empty(),
                    Seq::empty(),
                    after,
                    0,
                );
            }
        },
    }
}

#[verifier::spinoff_prover]
#[verifier::rlimit(40)]
proof fn lemma_branches<'a, K: Kernel, S: SmtSolver>(
    scope: RuleScopeV<'a, K, S>,
    fuel: nat,
    matches: Seq<PartialRuleMatchV>,
    applied: Seq<RuleApplicationV>,
    trivial: Seq<TrivialApplicationV>,
    counter: u64,
    from: int,
)
    requires
        all_apply(applied, scope.rule, scope.pattern.term),
        all_trivial(trivial, scope.rule),
    ensures
        comes_from(
            branches_applied(scope, fuel, matches, applied, trivial, counter, from).0,
            scope,
        ),
    decreases fuel, 1int, matches.len() - from,
{
    reveal(rule_applied);
    if from < matches.len() {
        lemma_applied(scope, fuel, Some(matches[from]), counter);
        match rule_applied(scope, fuel, Some(matches[from]), counter) {
            (RuleAttemptV::NotApplicable, after) => {
                lemma_branches(scope, fuel, matches, applied, trivial, after, from + 1);
            },
            (RuleAttemptV::Unified { applied: more, trivial: more_trivial }, after) => {
                lemma_all_added(
                    applied,
                    more,
                    trivial,
                    more_trivial,
                    scope.rule,
                    scope.pattern.term,
                );
                lemma_branches(
                    scope,
                    fuel,
                    matches,
                    applied + more,
                    trivial + more_trivial,
                    after,
                    from + 1,
                );
            },
            _ => {},
        }
    }
}

#[verifier::spinoff_prover]
#[verifier::rlimit(40)]
proof fn lemma_solutions<'a, K: Kernel, S: SmtSolver>(
    scope: RuleScopeV<'a, K, S>,
    fuel: nat,
    solutions: Seq<CollectionSolutionV>,
    remainder: Seq<(TermV, TermV)>,
    inherited: Seq<PredicateV>,
    applied: Seq<RuleApplicationV>,
    trivial: Seq<TrivialApplicationV>,
    counter: u64,
    from: int,
)
    requires
        all_apply(applied, scope.rule, scope.pattern.term),
        all_trivial(trivial, scope.rule),
    ensures
        comes_from(
            solutions_applied(
                scope,
                fuel,
                solutions,
                remainder,
                inherited,
                applied,
                trivial,
                counter,
                from,
            ).0,
            scope,
        ),
    decreases fuel, 1int, solutions.len() - from,
{
    reveal(rule_applied);
    if from < solutions.len() {
        let (matched, fresh) = solution_match(
            scope,
            solutions[from],
            remainder,
            inherited,
            counter,
        );
        lemma_applied(scope, fuel, Some(matched), fresh);
        match rule_applied(scope, fuel, Some(matched), fresh) {
            (RuleAttemptV::NotApplicable, after) => {
                lemma_solutions(
                    scope,
                    fuel,
                    solutions,
                    remainder,
                    inherited,
                    applied,
                    trivial,
                    after,
                    from + 1,
                );
            },
            (RuleAttemptV::Unified { applied: more, trivial: more_trivial }, after) => {
                lemma_all_added(
                    applied,
                    more,
                    trivial,
                    more_trivial,
                    scope.rule,
                    scope.pattern.term,
                );
                lemma_solutions(
                    scope,
                    fuel,
                    solutions,
                    remainder,
                    inherited,
                    applied + more,
                    trivial + more_trivial,
                    after,
                    from + 1,
                );
            },
            _ => {},
        }
    }
}

// ---------------------------------------------------------------------------------------------
// Steps
// ---------------------------------------------------------------------------------------------
/// Whether an application is one of a rule among `rules`.
pub open spec fn from_rules(
    applied: AppliedRuleV,
    rules: Seq<RewriteRuleV>,
    term: TermV,
) -> bool {
    exists|i: int| 0 <= i < rules.len() && applies_rule(applied, #[trigger] rules[i], term)
}

/// Whether an application without a result is one of a rule among `rules`.
pub open spec fn trivial_from_rules(
    trivial: TrivialApplicationV,
    rules: Seq<RewriteRuleV>,
) -> bool {
    exists|i: int| 0 <= i < rules.len() && trivially_applies(trivial, #[trigger] rules[i])
}

/// Whether all applications are of rules among `rules`.
pub open spec fn all_from_rules(
    applied: Seq<AppliedRuleV>,
    trivial: Seq<TrivialApplicationV>,
    rules: Seq<RewriteRuleV>,
    term: TermV,
) -> bool {
    &&& forall|i: int| 0 <= i < applied.len() ==> from_rules(#[trigger] applied[i], rules, term)
    &&& forall|i: int|
        0 <= i < trivial.len() ==> trivial_from_rules(#[trigger] trivial[i], rules)
}

spec fn group_from_rules(group: GroupV, rules: Seq<RewriteRuleV>, term: TermV) -> bool {
    &&& forall|i: int|
        0 <= i < group.0.len() ==> from_rules((#[trigger] group.0[i]).applied, rules, term)
    &&& forall|i: int|
        0 <= i < group.1.len() ==> trivial_from_rules(#[trigger] group.1[i], rules)
}

proof fn lemma_group_added(
    left: GroupV,
    right: GroupV,
    rules: Seq<RewriteRuleV>,
    term: TermV,
)
    requires
        group_from_rules(left, rules, term),
        group_from_rules(right, rules, term),
    ensures
        group_from_rules((left.0 + right.0, left.1 + right.1), rules, term),
{
    let applied = left.0 + right.0;
    assert forall|i: int| 0 <= i < applied.len() implies from_rules(
        (#[trigger] applied[i]).applied,
        rules,
        term,
    ) by {
        if i < left.0.len() {
            assert(applied[i] == left.0[i]);
        } else {
            assert(applied[i] == right.0[i - left.0.len()]);
        }
    }
    let trivial = left.1 + right.1;
    assert forall|i: int| 0 <= i < trivial.len() implies trivial_from_rules(
        #[trigger] trivial[i],
        rules,
    ) by {
        if i < left.1.len() {
            assert(trivial[i] == left.1[i]);
        } else {
            assert(trivial[i] == right.1[i - left.1.len()]);
        }
    }
}

proof fn lemma_attempt_from_rules<'a, K: Kernel, S: SmtSolver>(
    scope: RuleScopeV<'a, K, S>,
    counter: u64,
    rules: Seq<RewriteRuleV>,
    at: int,
)
    requires
        0 <= at < rules.len(),
        rules[at] == scope.rule,
    ensures
        match rule_applied(scope, REFINEMENTS as nat, None, counter).0 {
            RuleAttemptV::Unified { applied, trivial } => group_from_rules(
                (applied, trivial),
                rules,
                scope.pattern.term,
            ),
            _ => true,
        },
{
    lemma_applied(scope, REFINEMENTS as nat, None, counter);
    if let RuleAttemptV::Unified { applied, trivial } = rule_applied(
        scope,
        REFINEMENTS as nat,
        None,
        counter,
    ).0 {
        assert forall|i: int| 0 <= i < applied.len() implies from_rules(
            (#[trigger] applied[i]).applied,
            rules,
            scope.pattern.term,
        ) by {
            assert(applies_rule(applied[i].applied, rules[at], scope.pattern.term));
        }
        assert forall|i: int| 0 <= i < trivial.len() implies trivial_from_rules(
            #[trigger] trivial[i],
            rules,
        ) by {
            assert(trivially_applies(trivial[i], rules[at]));
        }
    }
}

proof fn lemma_group<'a, K: Kernel, S: SmtSolver>(
    environment: Environment<'a, K, S>,
    options: SimplificationOptions,
    pattern: PatternV,
    assume_defined: bool,
    rules: Seq<RewriteRuleV>,
    found: GroupV,
    counter: u64,
    from: int,
)
    requires
        0 <= from,
        group_from_rules(found, rules, pattern.term),
    ensures
        match group_applied(
            environment,
            options,
            pattern,
            assume_defined,
            rules,
            found,
            counter,
            from,
        ).0 {
            Ok(group) => group_from_rules(group, rules, pattern.term),
            Err(_) => true,
        },
    decreases rules.len() - from,
{
    if from < rules.len() {
        let scope = RuleScopeV {
            definition: environment.definition,
            solver: environment.solver,
            rule: rules[from],
            pattern,
            options,
            assume_defined,
        };
        lemma_attempt_from_rules(scope, counter, rules, from);
        match rule_applied(scope, REFINEMENTS as nat, None, counter) {
            (RuleAttemptV::NotApplicable, after) => {
                lemma_group(
                    environment,
                    options,
                    pattern,
                    assume_defined,
                    rules,
                    found,
                    after,
                    from + 1,
                );
            },
            (RuleAttemptV::Unified { applied, trivial }, after) => {
                lemma_group_added(found, (applied, trivial), rules, pattern.term);
                lemma_group(
                    environment,
                    options,
                    pattern,
                    assume_defined,
                    rules,
                    (found.0 + applied, found.1 + trivial),
                    after,
                    from + 1,
                );
            },
            _ => {},
        }
    }
}

proof fn lemma_applied_rules(
    applied: Seq<RuleApplicationV>,
    found: Seq<AppliedRuleV>,
    from: int,
    rules: Seq<RewriteRuleV>,
    term: TermV,
)
    requires
        0 <= from,
        forall|i: int|
            0 <= i < applied.len() ==> from_rules((#[trigger] applied[i]).applied, rules, term),
        forall|i: int| 0 <= i < found.len() ==> from_rules(#[trigger] found[i], rules, term),
    ensures
        ({
            let result = applied_rules(applied, found, from);
            forall|i: int| 0 <= i < result.len() ==> from_rules(#[trigger] result[i], rules, term)
        }),
    decreases applied.len() - from,
{
    if from < applied.len() {
        assert(from_rules(applied[from].applied, rules, term));
        let more = found.push(applied[from].applied);
        assert forall|i: int| 0 <= i < more.len() implies from_rules(
            #[trigger] more[i],
            rules,
            term,
        ) by {
            if i < found.len() {
                assert(more[i] == found[i]);
            }
        }
        lemma_applied_rules(applied, more, from + 1, rules, term);
        assert(applied_rules(applied, found, from) == applied_rules(applied, more, from + 1));
    }
}

/// What the outcome of a step says of the pattern and of the rules: it is about the pattern, and
/// all applications in it are of rules among `rules`.
pub open spec fn outcome_from_rules(
    result: RewriteResultV,
    pattern: PatternV,
    rules: Seq<RewriteRuleV>,
) -> bool {
    match result {
        RewriteResultV::Stuck(same) => same == pattern,
        RewriteResultV::Trivial(same) => same == pattern,
        RewriteResultV::Vacuous(same) => same == pattern && conjunction_truth(
            pattern.constraints,
        ) is False,
        RewriteResultV::Finished(applied) => from_rules(applied, rules, pattern.term),
        RewriteResultV::Branch { original, branches, trivial, .. } => original == pattern
            && all_from_rules(branches, trivial, rules, pattern.term),
        RewriteResultV::Indeterminate { pattern: same, .. } => same.term == pattern.term,
    }
}

proof fn lemma_more_rules(
    result: RewriteResultV,
    pattern: PatternV,
    rules: Seq<RewriteRuleV>,
    more: Seq<RewriteRuleV>,
)
    requires
        outcome_from_rules(result, pattern, rules),
        forall|i: int| 0 <= i < rules.len() ==> more.contains(#[trigger] rules[i]),
    ensures
        outcome_from_rules(result, pattern, more),
{
    assert forall|applied: AppliedRuleV| #[trigger] from_rules(
        applied,
        rules,
        pattern.term,
    ) implies from_rules(applied, more, pattern.term) by {
        let i = choose|i: int|
            0 <= i < rules.len() && applies_rule(applied, #[trigger] rules[i], pattern.term);
        let j = choose|j: int| 0 <= j < more.len() && more[j] == rules[i];
        assert(applies_rule(applied, more[j], pattern.term));
    }
    assert forall|trivial: TrivialApplicationV| #[trigger] trivial_from_rules(
        trivial,
        rules,
    ) implies trivial_from_rules(trivial, more) by {
        let i = choose|i: int|
            0 <= i < rules.len() && trivially_applies(trivial, #[trigger] rules[i]);
        let j = choose|j: int| 0 <= j < more.len() && more[j] == rules[i];
        assert(trivially_applies(trivial, more[j]));
    }
}

proof fn lemma_rules_of(groups: GroupsV, found: Seq<RewriteRuleV>, from: int, at: int)
    requires
        0 <= from,
    ensures
        forall|i: int|
            0 <= i < found.len() ==> rules_of(groups, found, from).contains(#[trigger] found[i]),
        from <= at < groups.len() ==> forall|i: int|
            0 <= i < groups[at].1.len() ==> rules_of(groups, found, from).contains(
                #[trigger] groups[at].1[i],
            ),
    decreases groups.len() - from,
{
    let all = rules_of(groups, found, from);
    if from < groups.len() {
        let more = found + groups[from].1;
        lemma_rules_of(groups, more, from + 1, at);
        assert forall|i: int| 0 <= i < found.len() implies all.contains(#[trigger] found[i]) by {
            assert(more[i] == found[i]);
        }
        if at == from {
            assert forall|i: int| 0 <= i < groups[at].1.len() implies all.contains(
                #[trigger] groups[at].1[i],
            ) by {
                assert(more[found.len() + i] == groups[at].1[i]);
            }
        }
    } else {
        assert forall|i: int| 0 <= i < found.len() implies all.contains(#[trigger] found[i]) by {
            assert(all[i] == found[i]);
        }
    }
}

proof fn lemma_groups<'a, K: Kernel, S: SmtSolver>(
    environment: Environment<'a, K, S>,
    options: SimplificationOptions,
    pattern: PatternV,
    assume_defined: bool,
    groups: GroupsV,
    counter: u64,
    from: int,
)
    requires
        0 <= from,
    ensures
        outcome_from_rules(
            groups_stepped(
                environment,
                options,
                pattern,
                assume_defined,
                groups,
                counter,
                from,
            ).0,
            pattern,
            rules_of(groups, Seq::empty(), 0),
        ),
    decreases groups.len() - from,
{
    if from < groups.len() {
        let rules = groups[from].1;
        let nothing: GroupV = (Seq::empty(), Seq::empty());
        lemma_group(
            environment,
            options,
            pattern,
            assume_defined,
            rules,
            nothing,
            counter,
            0,
        );
        match group_applied(
            environment,
            options,
            pattern,
            assume_defined,
            rules,
            nothing,
            counter,
            0,
        ) {
            (Ok(group), after) => {
                if group.0.len() == 0 && group.1.len() == 0 {
                    lemma_groups(
                        environment,
                        options,
                        pattern,
                        assume_defined,
                        groups,
                        after,
                        from + 1,
                    );
                } else {
                    lemma_applied_rules(group.0, Seq::empty(), 0, rules, pattern.term);
                    let outcome = group_outcome(environment, options, pattern, group);
                    assert(outcome_from_rules(outcome, pattern, rules));
                    lemma_rules_of(groups, Seq::empty(), 0, from);
                    lemma_more_rules(
                        outcome,
                        pattern,
                        rules,
                        rules_of(groups, Seq::empty(), 0),
                    );
                }
            },
            _ => {},
        }
    }
}

spec fn sequence_from_rules(
    state: SequentialV,
    rules: Seq<RewriteRuleV>,
    term: TermV,
) -> bool {
    state.remaining.term == term && all_from_rules(state.applied, state.trivial, rules, term)
}

proof fn lemma_with_applications(
    state: SequentialV,
    applied: Seq<RuleApplicationV>,
    from: int,
    rules: Seq<RewriteRuleV>,
    term: TermV,
)
    requires
        0 <= from,
        sequence_from_rules(state, rules, term),
        forall|i: int|
            0 <= i < applied.len() ==> from_rules((#[trigger] applied[i]).applied, rules, term),
    ensures
        sequence_from_rules(with_applications(state, applied, from), rules, term),
    decreases applied.len() - from,
{
    if from < applied.len() {
        let next = narrowed_by(state, applied[from].remainder);
        assert(from_rules(applied[from].applied, rules, term));
        lemma_with_applications(
            SequentialV { applied: next.applied.push(applied[from].applied), ..next },
            applied,
            from + 1,
            rules,
            term,
        );
    }
}

proof fn lemma_with_trivial(
    state: SequentialV,
    trivial: Seq<TrivialApplicationV>,
    from: int,
    rules: Seq<RewriteRuleV>,
    term: TermV,
)
    requires
        0 <= from,
        sequence_from_rules(state, rules, term),
        forall|i: int|
            0 <= i < trivial.len() ==> trivial_from_rules(#[trigger] trivial[i], rules),
    ensures
        sequence_from_rules(with_trivial(state, trivial, from), rules, term),
    decreases trivial.len() - from,
{
    if from < trivial.len() {
        let next = narrowed_by(state, trivial[from].remainder);
        lemma_with_trivial(
            SequentialV { trivial: next.trivial.push(trivial[from]), ..next },
            trivial,
            from + 1,
            rules,
            term,
        );
    }
}

proof fn lemma_sequence<'a, K: Kernel, S: SmtSolver>(
    environment: Environment<'a, K, S>,
    options: SimplificationOptions,
    pattern: PatternV,
    rules: Seq<RewriteRuleV>,
    state: SequentialV,
    counter: u64,
    from: int,
)
    requires
        0 <= from,
        sequence_from_rules(state, rules, pattern.term),
    ensures
        outcome_from_rules(
            sequence_stepped(environment, options, pattern, rules, state, counter, from).0,
            pattern,
            rules,
        ),
    decreases rules.len() - from,
{
    if from < rules.len() && !(conjunction_truth(state.remaining.constraints) is False) {
        let scope = RuleScopeV {
            definition: environment.definition,
            solver: environment.solver,
            rule: rules[from],
            pattern: state.remaining,
            options,
            assume_defined: false,
        };
        lemma_attempt_from_rules(scope, counter, rules, from);
        match rule_applied(scope, REFINEMENTS as nat, None, counter) {
            (RuleAttemptV::NotApplicable, after) => {
                lemma_sequence(environment, options, pattern, rules, state, after, from + 1);
            },
            (RuleAttemptV::Unified { applied, trivial }, after) => {
                let group: GroupV = (applied, trivial);
                lemma_with_applications(state, applied, 0, rules, pattern.term);
                lemma_with_trivial(
                    with_applications(state, applied, 0),
                    trivial,
                    0,
                    rules,
                    pattern.term,
                );
                if let Ok(next) = rule_taken(
                    environment,
                    options,
                    pattern.constraints,
                    rules[from],
                    state,
                    group,
                ) {
                    lemma_sequence(environment, options, pattern, rules, next, after, from + 1);
                }
            },
            _ => {},
        }
    }
}

/// A rewrite step is about the pattern that it starts from, and every application in its outcome is
/// one of a rule of the theory that is tried on that pattern. An application drops no constraint,
/// and a pattern is vacuous only where its constraints do not hold.
pub proof fn law_steps_apply_rules<'a, K: Kernel, S: SmtSolver>(
    environment: Environment<'a, K, S>,
    pattern: PatternV,
    counter: u64,
    options: SimplificationOptions,
    mode: ExecutionMode,
    assume_defined: bool,
)
    ensures
        outcome_from_rules(
            stepped(environment, pattern, counter, options, mode, assume_defined).0,
            pattern,
            rules_of(
                groups_for(environment.definition.rewrite_theory@, index_of(pattern.term)),
                Seq::empty(),
                0,
            ),
        ),
{
    reveal(stepped);
    let groups = groups_for(environment.definition.rewrite_theory@, index_of(pattern.term));
    lemma_groups(environment, options, pattern, assume_defined, groups, counter, 0);
    lemma_sequence(
        environment,
        options,
        pattern,
        rules_of(groups, Seq::empty(), 0),
        sequence_start(pattern),
        counter,
        0,
    );
}

/// A pattern whose constraints do not hold is vacuous.
pub proof fn law_refuted_patterns_are_vacuous<'a, K: Kernel, S: SmtSolver>(
    environment: Environment<'a, K, S>,
    pattern: PatternV,
    counter: u64,
    options: SimplificationOptions,
    mode: ExecutionMode,
    assume_defined: bool,
)
    requires
        conjunction_truth(pattern.constraints) is False,
    ensures
        stepped(environment, pattern, counter, options, mode, assume_defined) == (
            RewriteResultV::Vacuous(pattern),
            counter,
        ),
{
    reveal(stepped);
}

/// A pattern that no rule is tried on is stuck, unless its constraints do not hold.
pub proof fn law_patterns_without_rules_are_stuck<'a, K: Kernel, S: SmtSolver>(
    environment: Environment<'a, K, S>,
    pattern: PatternV,
    counter: u64,
    options: SimplificationOptions,
    mode: ExecutionMode,
    assume_defined: bool,
)
    requires
        !(conjunction_truth(pattern.constraints) is False),
        groups_for(
            environment.definition.rewrite_theory@,
            index_of(pattern.term),
        ).len() == 0,
    ensures
        stepped(environment, pattern, counter, options, mode, assume_defined) == (
            RewriteResultV::Stuck(pattern),
            counter,
        ),
{
    reveal(stepped);
}

proof fn lemma_bindings_without(
    bindings: SubstitutionV,
    dropped: Seq<VariableV>,
    found: SubstitutionV,
    from: int,
)
    requires
        0 <= from,
        forall|i: int| 0 <= i < found.len() ==> !dropped.contains((#[trigger] found[i]).0),
    ensures
        ({
            let result = bindings_without(bindings, dropped, found, from);
            forall|i: int| 0 <= i < result.len() ==> !dropped.contains((#[trigger] result[i]).0)
        }),
    decreases bindings.len() - from,
{
    if from < bindings.len() {
        let next = if dropped.contains(bindings[from].0) {
            found
        } else {
            found.push(bindings[from])
        };
        lemma_bindings_without(bindings, dropped, next, from + 1);
        assert(bindings_without(bindings, dropped, found, from) == bindings_without(
            bindings,
            dropped,
            next,
            from + 1,
        ));
    }
}

/// The bindings that an application reports for its rule bind no alias of a term.
pub proof fn law_aliases_are_omitted(applied: AppliedRuleV, rule: RewriteRuleV, term: TermV)
    requires
        applies_rule(applied, rule, term),
    ensures
        forall|i: int|
            0 <= i < applied.rule_substitution.len() ==> !aliases(rule.lhs, Seq::empty()).contains(
                (#[trigger] applied.rule_substitution[i]).0,
            ),
{
    lemma_bindings_without(
        applied.substitution,
        aliases(rule.lhs, Seq::empty()),
        Seq::empty(),
        0,
    );
}

} // verus!
