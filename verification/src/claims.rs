//! Reachability claims, and their application as circularities.

use vstd::prelude::*;
use crate::apply_parts::{keep_undecided, undecided};
use crate::assoc::assoc;
use crate::collections::{CollectionSolution, CollectionSolutionV};
use crate::definition::BackendDefinition;
use crate::index::{extend_unique, push_unique, unique_extension};
use crate::kernel::{result_view, Kernel, UnificationResult, UnificationResultV};
use crate::matcher::{definition_context, match_terms_in_definition, terms_matched};
use crate::matching::{MatchMode, MatchResult, MatchResultV};
use crate::model::{contains, deep, group_deep, Value};
use crate::names::{
    counter_behind, decimal, decimal_text, lemma_decimal_injective, lemma_some_name_is_free,
    next_counter,
};
use crate::narrow::{collection_unification_definedness, pairs_defined};
use crate::normalize::{add_unique, normalize_predicate, normalized};
use crate::ops::{extend_sorted, extended};
use crate::pattern::{
    extract_substitution_for, extracted, pattern_free_variables, pattern_names,
    pattern_variable_names, pattern_variables, quantify_introduced_variables, Pattern, PatternV,
};
use crate::predicate::{Predicate, PredicateV};
use crate::predicates::{
    conjunctively_contains_alpha_equivalent, holds_alpha_equal, introduced_quantified,
    predicates_substituted, substitute_predicates,
};
use crate::recovery::{match_recovered, recover_indeterminate_match, RecoveryScope, RecoveryScopeV};
use crate::rewrite_types::{RemainderBranch, RemainderBranchV};
use crate::simplification::{conjunction_simplified, simplify_predicates_with_solver};
use crate::simplify_types::{SimplificationError, SimplificationErrorV, SimplificationOptions};
use crate::solve::{collections_solved, solve_collection_pairs_in_definition};
use crate::solver::{
    Satisfiability, SatisfiabilityV, SmtError, SmtErrorV, SmtSolver, Validity, ValidityV,
};
use crate::substitution::{
    bound, compose, composed, substitute, substituted, Substitution, SubstitutionV,
};
use crate::term::{lemma_term_view, Term, TermV, Variable, VariableV};
use crate::truth::{conjunction_truth, predicates_truth, Truth};

verus! {

broadcast use group_deep;

/// Whether one path has to reach the destination, or all paths.
#[derive(Clone, Copy, Debug, PartialEq, Eq, Structural)]
pub enum ReachabilityMode {
    OnePath,
    AllPath,
}

/// What the frontend says of a claim.
#[derive(Debug, PartialEq, Eq)]
pub struct ClaimAttributes {
    pub label: Option<String>,
    pub unique_id: String,
    pub trusted: bool,
}

/// The view of [`ClaimAttributes`].
pub struct ClaimAttributesV {
    pub label: Option<Seq<char>>,
    pub unique_id: Seq<char>,
    pub trusted: bool,
}

impl View for ClaimAttributes {
    type V = ClaimAttributesV;

    open spec fn view(&self) -> ClaimAttributesV {
        ClaimAttributesV {
            label: self.label.deep_view(),
            unique_id: self.unique_id@,
            trusted: self.trusted,
        }
    }
}

impl DeepView for ClaimAttributes {
    type V = ClaimAttributesV;

    open spec fn deep_view(&self) -> ClaimAttributesV {
        self@
    }
}

impl Value for ClaimAttributes {
    fn duplicate(&self) -> (copy: Self) {
        ClaimAttributes {
            label: self.label.duplicate(),
            unique_id: self.unique_id.clone(),
            trusted: self.trusted,
        }
    }

    fn equals(&self, other: &Self) -> (same: bool) {
        self.label.equals(&other.label)
            && self.unique_id == other.unique_id
            && self.trusted == other.trusted
    }
}

/// A claim: every instance of the left-hand side reaches one of the right-hand sides.
#[derive(Debug, PartialEq, Eq)]
pub struct ReachabilityClaim {
    pub lhs: Pattern,
    pub rhs: Vec<Pattern>,
    pub existentials: Vec<Variable>,
    pub mode: ReachabilityMode,
    pub attributes: ClaimAttributes,
}

/// The view of [`ReachabilityClaim`].
pub struct ReachabilityClaimV {
    pub lhs: PatternV,
    pub rhs: Seq<PatternV>,
    pub existentials: Seq<VariableV>,
    pub mode: ReachabilityMode,
    pub attributes: ClaimAttributesV,
}

impl View for ReachabilityClaim {
    type V = ReachabilityClaimV;

    open spec fn view(&self) -> ReachabilityClaimV {
        ReachabilityClaimV {
            lhs: self.lhs@,
            rhs: deep(self.rhs@),
            existentials: deep(self.existentials@),
            mode: self.mode,
            attributes: self.attributes@,
        }
    }
}

impl DeepView for ReachabilityClaim {
    type V = ReachabilityClaimV;

    open spec fn deep_view(&self) -> ReachabilityClaimV {
        self@
    }
}

impl Value for ReachabilityClaim {
    fn duplicate(&self) -> (copy: Self) {
        ReachabilityClaim {
            lhs: self.lhs.duplicate(),
            rhs: self.rhs.duplicate(),
            existentials: self.existentials.duplicate(),
            mode: self.mode,
            attributes: self.attributes.duplicate(),
        }
    }

    fn equals(&self, other: &Self) -> (same: bool) {
        self.lhs.equals(&other.lhs)
            && self.rhs.equals(&other.rhs)
            && self.existentials.equals(&other.existentials)
            && self.mode == other.mode
            && self.attributes.equals(&other.attributes)
    }
}

/// Why it is not known whether a claim applies.
#[derive(Debug, PartialEq, Eq)]
pub enum ClaimIndeterminateReason {
    Simplification(SimplificationError),
    Match { substitution: Substitution, remainder: Vec<(Term, Term)> },
    Smt(SmtError),
}

/// The view of [`ClaimIndeterminateReason`].
pub enum ClaimIndeterminateReasonV {
    Simplification(SimplificationErrorV),
    Match { substitution: SubstitutionV, remainder: Seq<(TermV, TermV)> },
    Smt(SmtErrorV),
}

impl View for ClaimIndeterminateReason {
    type V = ClaimIndeterminateReasonV;

    open spec fn view(&self) -> ClaimIndeterminateReasonV {
        match self {
            ClaimIndeterminateReason::Simplification(
                first,
            ) => ClaimIndeterminateReasonV::Simplification(first@),
            ClaimIndeterminateReason::Match {
                substitution,
                remainder,
            } => ClaimIndeterminateReasonV::Match {
                substitution: substitution@,
                remainder: deep(remainder@),
            },
            ClaimIndeterminateReason::Smt(first) => ClaimIndeterminateReasonV::Smt(first@),
        }
    }
}

impl DeepView for ClaimIndeterminateReason {
    type V = ClaimIndeterminateReasonV;

    open spec fn deep_view(&self) -> ClaimIndeterminateReasonV {
        self@
    }
}

impl Value for ClaimIndeterminateReason {
    fn duplicate(&self) -> (copy: Self) {
        match self {
            ClaimIndeterminateReason::Simplification(
                first,
            ) => ClaimIndeterminateReason::Simplification(first.duplicate()),
            ClaimIndeterminateReason::Match {
                substitution,
                remainder,
            } => ClaimIndeterminateReason::Match {
                substitution: substitution.duplicate(),
                remainder: remainder.duplicate(),
            },
            ClaimIndeterminateReason::Smt(first) => ClaimIndeterminateReason::Smt(
                first.duplicate(),
            ),
        }
    }

    fn equals(&self, other: &Self) -> (same: bool) {
        match (self, other) {
            (
                ClaimIndeterminateReason::Simplification(first),
                ClaimIndeterminateReason::Simplification(other_first),
            ) => first.equals(other_first),
            (
                ClaimIndeterminateReason::Match { substitution, remainder },
                ClaimIndeterminateReason::Match {
                    substitution: other_substitution,
                    remainder: other_remainder,
                },
            ) => substitution.equals(other_substitution) && remainder.equals(other_remainder),
            (ClaimIndeterminateReason::Smt(first), ClaimIndeterminateReason::Smt(other_first)) => first.equals(
                other_first,
            ),
            _ => false,
        }
    }
}

/// What applying a claim gives.
#[derive(Debug, PartialEq, Eq)]
pub enum ClaimApplication {
    NotApplicable,
    /// The right-hand sides where the claim covers the subject, and the case that it leaves.
    Applied { patterns: Vec<Pattern>, remainder: Option<RemainderBranch> },
    Indeterminate(ClaimIndeterminateReason),
}

/// The view of [`ClaimApplication`].
pub enum ClaimApplicationV {
    NotApplicable,
    Applied { patterns: Seq<PatternV>, remainder: Option<RemainderBranchV> },
    Indeterminate(ClaimIndeterminateReasonV),
}

impl View for ClaimApplication {
    type V = ClaimApplicationV;

    open spec fn view(&self) -> ClaimApplicationV {
        match self {
            ClaimApplication::NotApplicable => ClaimApplicationV::NotApplicable,
            ClaimApplication::Applied { patterns, remainder } => ClaimApplicationV::Applied {
                patterns: deep(patterns@),
                remainder: remainder.deep_view(),
            },
            ClaimApplication::Indeterminate(first) => ClaimApplicationV::Indeterminate(first@),
        }
    }
}

impl DeepView for ClaimApplication {
    type V = ClaimApplicationV;

    open spec fn deep_view(&self) -> ClaimApplicationV {
        self@
    }
}

impl Value for ClaimApplication {
    fn duplicate(&self) -> (copy: Self) {
        match self {
            ClaimApplication::NotApplicable => ClaimApplication::NotApplicable,
            ClaimApplication::Applied { patterns, remainder } => ClaimApplication::Applied {
                patterns: patterns.duplicate(),
                remainder: remainder.duplicate(),
            },
            ClaimApplication::Indeterminate(first) => ClaimApplication::Indeterminate(
                first.duplicate(),
            ),
        }
    }

    fn equals(&self, other: &Self) -> (same: bool) {
        match (self, other) {
            (ClaimApplication::NotApplicable, ClaimApplication::NotApplicable) => true,
            (
                ClaimApplication::Applied { patterns, remainder },
                ClaimApplication::Applied { patterns: other_patterns, remainder: other_remainder },
            ) => patterns.equals(other_patterns) && remainder.equals(other_remainder),
            (
                ClaimApplication::Indeterminate(first),
                ClaimApplication::Indeterminate(other_first),
            ) => first.equals(other_first),
            _ => false,
        }
    }
}

/// What a claim is applied under.
pub struct ClaimScope<'a, K: Kernel, S: SmtSolver> {
    pub definition: &'a BackendDefinition<K>,
    pub solver: &'a S,
    pub options: SimplificationOptions,
}

impl<'a, K: Kernel, S: SmtSolver> ClaimScope<'a, K, S> {
    /// `predicates` simplified under `known`, unless they do not hold.
    pub open spec fn spec_simplified(self, predicates: Seq<PredicateV>, known: Seq<PredicateV>) -> Result<
        Seq<PredicateV>,
        ClaimApplicationV,
    > {
        match conjunction_simplified(self.definition, self.solver, predicates, known, self.options) {
            Err(error) => Err(
                ClaimApplicationV::Indeterminate(ClaimIndeterminateReasonV::Simplification(error)),
            ),
            Ok(result) => if conjunction_truth(result) is False {
                Err(ClaimApplicationV::NotApplicable)
            } else {
                Ok(result)
            },
        }
    }

    fn simplify(&self, predicates: &Vec<Predicate>, known: &Vec<Predicate>) -> (result: Result<
        Vec<Predicate>,
        ClaimApplication,
    >)
        ensures
            result_view(result) == self.spec_simplified(deep(predicates@), deep(known@)),
    {
        match simplify_predicates_with_solver(
            self.definition,
            predicates,
            known,
            self.options,
            self.solver,
        ) {
            Err(error) => Err(
                ClaimApplication::Indeterminate(ClaimIndeterminateReason::Simplification(error)),
            ),
            Ok(result) => if matches!(predicates_truth(&result), Truth::False) {
                Err(ClaimApplication::NotApplicable)
            } else {
                Ok(result)
            },
        }
    }
}

// ---------------------------------------------------------------------------------------------
// Fresh variables
// ---------------------------------------------------------------------------------------------
/// The variables of the patterns from `from` on, in the sorted set `found`.
pub open spec fn all_pattern_variables(
    patterns: Seq<PatternV>,
    found: Seq<VariableV>,
    from: int,
) -> Seq<VariableV>
    decreases patterns.len() - from,
{
    if from >= patterns.len() {
        found
    } else {
        all_pattern_variables(
            patterns,
            extended::<Variable>(found, pattern_variables(patterns[from])),
            from + 1,
        )
    }
}

/// The variables of a claim.
pub open spec fn claim_variables(claim: ReachabilityClaimV) -> Seq<VariableV> {
    extended::<Variable>(
        all_pattern_variables(claim.rhs, pattern_variables(claim.lhs), 0),
        claim.existentials,
    )
}

fn variables_of_claim(claim: &ReachabilityClaim) -> (result: Vec<Variable>)
    ensures
        deep(result@) == claim_variables(claim@),
{
    let mut found = pattern_free_variables(&claim.lhs);
    let mut i: usize = 0;
    while i < claim.rhs.len()
        invariant
            i <= claim.rhs.len(),
            all_pattern_variables(deep(claim.rhs@), pattern_variables(claim.lhs@), 0)
                == all_pattern_variables(deep(claim.rhs@), deep(found@), i as int),
        decreases claim.rhs.len() - i,
    {
        assert(deep(claim.rhs@)[i as int] == claim.rhs[i as int]@);
        extend_sorted(&mut found, &pattern_free_variables(&claim.rhs[i]));
        i += 1;
    }
    extend_sorted(&mut found, &claim.existentials);
    found
}

/// The name of a claim's variable with the given counter.
pub open spec fn claim_name(name: Seq<char>, counter: u64) -> Seq<char> {
    name + "!claim"@ + decimal(counter as nat)
}

/// The first counter from `counter` on, of at most `fuel`, whose name is not in `avoided`.
pub open spec fn free_claim_counter(
    name: Seq<char>,
    avoided: Seq<Seq<char>>,
    counter: u64,
    fuel: nat,
) -> u64
    decreases fuel,
{
    if fuel == 0 || !avoided.contains(claim_name(name, counter)) {
        counter
    } else {
        free_claim_counter(name, avoided, next_counter(counter), (fuel - 1) as nat)
    }
}

/// `renaming` with the variables from `from` on bound to fresh ones, and the counter behind them.
pub open spec fn claim_renaming(
    variables: Seq<VariableV>,
    avoided: Seq<Seq<char>>,
    renaming: SubstitutionV,
    counter: u64,
    from: int,
) -> (SubstitutionV, u64)
    decreases variables.len() - from,
{
    if from >= variables.len() {
        (renaming, counter)
    } else {
        let variable = variables[from];
        let free = free_claim_counter(variable.name, avoided, counter, avoided.len());
        let name = claim_name(variable.name, free);
        claim_renaming(
            variables,
            avoided.push(name),
            bound(renaming, variable, TermV::Variable(VariableV { name, ..variable })),
            next_counter(free),
            from + 1,
        )
    }
}

fn claim_text(name: &String, counter: u64) -> (text: String)
    ensures
        text@ == claim_name(name@, counter),
{
    let mut text = name.duplicate();
    text.append("!claim");
    text.append(decimal_text(counter).as_str());
    text
}

fn after_counter(counter: u64) -> (next: u64)
    ensures
        next == next_counter(counter),
{
    if counter == u64::MAX {
        0
    } else {
        counter + 1
    }
}

fn fresh_claim_name(name: &String, avoided: &Vec<String>, counter: &mut u64) -> (result: String)
    ensures
        ({
            let free = free_claim_counter(name@, deep(avoided@), *old(counter), avoided@.len());
            result@ == claim_name(name@, free) && *final(counter) == next_counter(free)
        }),
{
    let ghost start = *counter;
    let mut fuel: usize = avoided.len();
    let mut current: u64 = *counter;
    let mut text = claim_text(name, current);
    while fuel > 0 && contains(avoided, &text)
        invariant
            text@ == claim_name(name@, current),
            free_claim_counter(name@, deep(avoided@), start, avoided@.len()) == free_claim_counter(
                name@,
                deep(avoided@),
                current,
                fuel as nat,
            ),
        decreases fuel,
    {
        current = after_counter(current);
        fuel -= 1;
        text = claim_text(name, current);
    }
    *counter = after_counter(current);
    text
}

fn rename_claim_variables(variables: &Vec<Variable>, avoided: Vec<String>, counter: &mut u64) -> (result:
    Substitution)
    ensures
        (result@, *final(counter)) == claim_renaming(
            deep(variables@),
            deep(avoided@),
            Seq::empty(),
            *old(counter),
            0,
        ),
{
    let ghost goal = claim_renaming(
        deep(variables@),
        deep(avoided@),
        Seq::empty(),
        *counter,
        0,
    );
    let mut names = avoided;
    let mut renaming = Substitution::new();
    let mut i: usize = 0;
    while i < variables.len()
        invariant
            i <= variables.len(),
            goal == claim_renaming(
                deep(variables@),
                deep(names@),
                renaming@,
                *counter,
                i as int,
            ),
        decreases variables.len() - i,
    {
        assert(deep(variables@)[i as int] == variables[i as int]@);
        let name = fresh_claim_name(&variables[i].name, &names, counter);
        names.push(name.duplicate());
        renaming.insert(
            variables[i].duplicate(),
            Term::variable(variables[i].with_name(name)),
        );
        i += 1;
    }
    renaming
}

/// A pattern under a substitution.
pub open spec fn pattern_substituted(pattern: PatternV, substitution: SubstitutionV) -> PatternV {
    PatternV {
        term: substituted(pattern.term, substitution),
        constraints: predicates_substituted(pattern.constraints, substitution),
    }
}

/// The patterns from `from` on under a substitution, behind `found`.
pub open spec fn patterns_substituted(
    patterns: Seq<PatternV>,
    substitution: SubstitutionV,
    found: Seq<PatternV>,
    from: int,
) -> Seq<PatternV>
    decreases patterns.len() - from,
{
    if from >= patterns.len() {
        found
    } else {
        patterns_substituted(
            patterns,
            substitution,
            found.push(pattern_substituted(patterns[from], substitution)),
            from + 1,
        )
    }
}

/// The variable that a variable is renamed to.
pub open spec fn renamed_to(variable: VariableV, renaming: SubstitutionV) -> VariableV {
    match assoc(renaming, variable) {
        Some(TermV::Variable(renamed)) => renamed,
        _ => variable,
    }
}

/// The variables that those from `from` on are renamed to, behind `found`.
pub open spec fn all_renamed_to(
    variables: Seq<VariableV>,
    renaming: SubstitutionV,
    found: Seq<VariableV>,
    from: int,
) -> Seq<VariableV>
    decreases variables.len() - from,
{
    if from >= variables.len() {
        found
    } else {
        all_renamed_to(
            variables,
            renaming,
            found.push(renamed_to(variables[from], renaming)),
            from + 1,
        )
    }
}

/// A claim with fresh variables, and the counter behind them.
pub open spec fn claim_freshened(
    claim: ReachabilityClaimV,
    subject: PatternV,
    counter: u64,
) -> (ReachabilityClaimV, u64) {
    let (renaming, after) = claim_renaming(
        claim_variables(claim),
        pattern_names(subject),
        Seq::empty(),
        counter,
        0,
    );
    (
        ReachabilityClaimV {
            lhs: pattern_substituted(claim.lhs, renaming),
            rhs: patterns_substituted(claim.rhs, renaming, Seq::empty(), 0),
            existentials: all_renamed_to(claim.existentials, renaming, Seq::empty(), 0),
            ..claim
        },
        after,
    )
}

fn substitute_pattern(pattern: &Pattern, substitution: &Substitution) -> (result: Pattern)
    ensures
        result@ == pattern_substituted(pattern@, substitution@),
{
    Pattern {
        term: substitute(&pattern.term, substitution),
        constraints: substitute_predicates(&pattern.constraints, substitution),
    }
}

fn substitute_patterns(patterns: &Vec<Pattern>, substitution: &Substitution) -> (result: Vec<
    Pattern,
>)
    ensures
        deep(result@) == patterns_substituted(
            deep(patterns@),
            substitution@,
            Seq::empty(),
            0,
        ),
{
    let mut found: Vec<Pattern> = Vec::new();
    let mut i: usize = 0;
    while i < patterns.len()
        invariant
            i <= patterns.len(),
            patterns_substituted(deep(patterns@), substitution@, Seq::empty(), 0)
                == patterns_substituted(
                deep(patterns@),
                substitution@,
                deep(found@),
                i as int,
            ),
        decreases patterns.len() - i,
    {
        assert(deep(patterns@)[i as int] == patterns[i as int]@);
        found.push(substitute_pattern(&patterns[i], substitution));
        i += 1;
    }
    found
}

fn rename_to(variable: &Variable, renaming: &Substitution) -> (result: Variable)
    ensures
        result@ == renamed_to(variable@, renaming@),
{
    match renaming.get(variable) {
        Some(term) => {
            proof {
                lemma_term_view(*term);
            }
            match term {
                Term::Variable(renamed) => renamed.duplicate(),
                _ => variable.duplicate(),
            }
        },
        None => variable.duplicate(),
    }
}

fn rename_all_to(variables: &Vec<Variable>, renaming: &Substitution) -> (result: Vec<Variable>)
    ensures
        deep(result@) == all_renamed_to(deep(variables@), renaming@, Seq::empty(), 0),
{
    let mut found: Vec<Variable> = Vec::new();
    let mut i: usize = 0;
    while i < variables.len()
        invariant
            i <= variables.len(),
            all_renamed_to(deep(variables@), renaming@, Seq::empty(), 0) == all_renamed_to(
                deep(variables@),
                renaming@,
                deep(found@),
                i as int,
            ),
        decreases variables.len() - i,
    {
        assert(deep(variables@)[i as int] == variables[i as int]@);
        found.push(rename_to(&variables[i], renaming));
        i += 1;
    }
    found
}

fn freshen_claim(claim: &ReachabilityClaim, subject: &Pattern, counter: &mut u64) -> (result:
    ReachabilityClaim)
    ensures
        (result@, *final(counter)) == claim_freshened(claim@, subject@, *old(counter)),
{
    let variables = variables_of_claim(claim);
    let renaming = rename_claim_variables(&variables, pattern_variable_names(subject), counter);
    ReachabilityClaim {
        lhs: substitute_pattern(&claim.lhs, &renaming),
        rhs: substitute_patterns(&claim.rhs, &renaming),
        existentials: rename_all_to(&claim.existentials, &renaming),
        mode: claim.mode,
        attributes: claim.attributes.duplicate(),
    }
}

// ---------------------------------------------------------------------------------------------
// Matching
// ---------------------------------------------------------------------------------------------
/// A match of a claim: the bindings and the conditions, or what applying the claim gives where
/// there is none.
pub type ClaimMatched = Result<(SubstitutionV, Seq<PredicateV>), ClaimApplicationV>;

/// The match by the solutions of open pairs of collections: there has to be one.
pub open spec fn solutions_matched<'a, K: Kernel, S: SmtSolver>(
    scope: ClaimScope<'a, K, S>,
    solutions: Option<Seq<CollectionSolutionV>>,
    substitution: SubstitutionV,
    conditions: Seq<PredicateV>,
    remainder: Seq<(TermV, TermV)>,
) -> ClaimMatched {
    match solutions {
        Some(solutions) => if solutions.len() == 0 {
            Err(ClaimApplicationV::NotApplicable)
        } else if solutions.len() == 1 {
            Ok(
                (
                    solutions[0].substitution,
                    unique_extension(
                        unique_extension(conditions, solutions[0].constraints),
                        pairs_defined(
                            scope.definition,
                            remainder,
                            solutions[0].substitution,
                            Seq::empty(),
                            0,
                        ),
                    ),
                ),
            )
        } else {
            Err(unmatched(substitution, remainder))
        },
        None => Err(unmatched(substitution, remainder)),
    }
}

/// That it is not known whether a claim matches.
pub open spec fn unmatched(
    substitution: SubstitutionV,
    remainder: Seq<(TermV, TermV)>,
) -> ClaimApplicationV {
    ClaimApplicationV::Indeterminate(ClaimIndeterminateReasonV::Match { substitution, remainder })
}

/// The match where the open pairs unify: the equalities are conditions on the subject.
pub open spec fn open_pairs_matched<'a, K: Kernel, S: SmtSolver>(
    scope: ClaimScope<'a, K, S>,
    substitution: SubstitutionV,
    remainder: Seq<(TermV, TermV)>,
    conditions: Seq<PredicateV>,
) -> ClaimMatched {
    match scope.definition.kernel.unified(substitution, remainder) {
        UnificationResultV::Unified { substitution, constraints } => Ok(
            (substitution, unique_extension(conditions, constraints)),
        ),
        UnificationResultV::Bottom(_) => Err(ClaimApplicationV::NotApplicable),
        UnificationResultV::Unsupported { substitution, constraints, remainder } => {
            solutions_matched(
                scope,
                collections_solved(
                    MatchMode::Rewrite,
                    scope.definition,
                    substitution,
                    remainder,
                    None,
                ).0,
                substitution,
                unique_extension(conditions, constraints),
                remainder,
            )
        },
    }
}

/// The match of a claim's left-hand side with a subject.
pub open spec fn claim_matched<'a, K: Kernel, S: SmtSolver>(
    scope: ClaimScope<'a, K, S>,
    claim: ReachabilityClaimV,
    subject: PatternV,
) -> ClaimMatched {
    match terms_matched(
        definition_context(MatchMode::Rewrite, scope.definition),
        claim.lhs.term,
        subject.term,
    ) {
        MatchResultV::Success(substitution) => Ok((substitution, Seq::empty())),
        MatchResultV::Failed(_) => Err(ClaimApplicationV::NotApplicable),
        MatchResultV::Indeterminate { substitution, remainder } => match match_recovered(
            RecoveryScopeV {
                definition: scope.definition,
                solver: scope.solver,
                known: subject.constraints,
                options: scope.options,
            },
            substitution,
            remainder,
        ) {
            Err(error) => Err(
                ClaimApplicationV::Indeterminate(ClaimIndeterminateReasonV::Simplification(error)),
            ),
            Ok(recovered) => match recovered.result {
                MatchResultV::Success(substitution) => Ok((substitution, recovered.conditions)),
                MatchResultV::Failed(_) => Err(ClaimApplicationV::NotApplicable),
                MatchResultV::Indeterminate { substitution, remainder } => open_pairs_matched(
                    scope,
                    substitution,
                    remainder,
                    recovered.conditions,
                ),
            },
        },
    }
}

#[verifier::spinoff_prover]
fn match_solutions<'a, K: Kernel, S: SmtSolver>(
    scope: &ClaimScope<'a, K, S>,
    solutions: Option<Vec<CollectionSolution>>,
    substitution: Substitution,
    conditions: Vec<Predicate>,
    remainder: Vec<(Term, Term)>,
) -> (result: Result<(Substitution, Vec<Predicate>), ClaimApplication>)
    ensures
        result_view(result) == solutions_matched(
            *scope,
            solutions.deep_view(),
            substitution@,
            deep(conditions@),
            deep(remainder@),
        ),
{
    if let Some(solutions) = solutions {
        if solutions.len() == 0 {
            return Err(ClaimApplication::NotApplicable);
        }
        if solutions.len() == 1 {
            assert(deep(solutions@)[0] == solutions[0]@);
            let mut all = conditions;
            extend_unique(&mut all, solutions[0].constraints.duplicate());
            extend_unique(
                &mut all,
                collection_unification_definedness(
                    scope.definition,
                    &remainder,
                    &solutions[0].substitution,
                ),
            );
            return Ok((solutions[0].substitution.duplicate(), all));
        }
    }
    Err(
        ClaimApplication::Indeterminate(
            ClaimIndeterminateReason::Match { substitution, remainder },
        ),
    )
}

#[verifier::spinoff_prover]
fn match_open_pairs<'a, K: Kernel, S: SmtSolver>(
    scope: &ClaimScope<'a, K, S>,
    substitution: Substitution,
    remainder: Vec<(Term, Term)>,
    conditions: Vec<Predicate>,
) -> (result: Result<(Substitution, Vec<Predicate>), ClaimApplication>)
    ensures
        result_view(result) == open_pairs_matched(
            *scope,
            substitution@,
            deep(remainder@),
            deep(conditions@),
        ),
{
    let mut all = conditions;
    match scope.definition.kernel.unify(substitution, remainder) {
        UnificationResult::Unified { substitution: unified, constraints } => {
            extend_unique(&mut all, constraints);
            Ok((unified, all))
        },
        UnificationResult::Bottom(_) => Err(ClaimApplication::NotApplicable),
        UnificationResult::Unsupported { substitution: unified, constraints, remainder: open } => {
            let mut narrowing = None;
            let solutions = solve_collection_pairs_in_definition(
                MatchMode::Rewrite,
                scope.definition,
                unified.duplicate(),
                &open,
                &mut narrowing,
            );
            extend_unique(&mut all, constraints);
            match_solutions(scope, solutions, unified, all, open)
        },
    }
}

#[verifier::spinoff_prover]
fn match_claim<'a, K: Kernel, S: SmtSolver>(
    scope: &ClaimScope<'a, K, S>,
    claim: &ReachabilityClaim,
    subject: &Pattern,
) -> (result: Result<(Substitution, Vec<Predicate>), ClaimApplication>)
    ensures
        result_view(result) == claim_matched(*scope, claim@, subject@),
{
    match match_terms_in_definition(
        MatchMode::Rewrite,
        scope.definition,
        &claim.lhs.term,
        &subject.term,
    ) {
        MatchResult::Success(substitution) => Ok((substitution, Vec::new())),
        MatchResult::Failed(_) => Err(ClaimApplication::NotApplicable),
        MatchResult::Indeterminate { substitution, remainder } => {
            let recovery_scope = RecoveryScope {
                definition: scope.definition,
                solver: scope.solver,
                known: &subject.constraints,
                options: scope.options,
            };
            match recover_indeterminate_match(&recovery_scope, substitution, &remainder) {
                Err(error) => Err(
                    ClaimApplication::Indeterminate(
                        ClaimIndeterminateReason::Simplification(error),
                    ),
                ),
                Ok(recovered) => match recovered.result {
                    MatchResult::Success(found) => Ok((found, recovered.conditions)),
                    MatchResult::Failed(_) => Err(ClaimApplication::NotApplicable),
                    MatchResult::Indeterminate { substitution: found, remainder: open } => {
                        match_open_pairs(scope, found, open, recovered.conditions)
                    },
                },
            }
        },
    }
}

/// A match in two parts: `kept` with the bindings from `from` on of variables of the claim, and
/// `conditions` with an equality for every other binding, and with what makes its value defined.
pub open spec fn subject_split<K: Kernel>(
    kernel: &K,
    bindings: SubstitutionV,
    variables: Seq<VariableV>,
    kept: SubstitutionV,
    conditions: Seq<PredicateV>,
    from: int,
) -> (SubstitutionV, Seq<PredicateV>)
    decreases bindings.len() - from,
{
    if from >= bindings.len() {
        (kept, conditions)
    } else {
        let (variable, value) = bindings[from];
        if variables.contains(variable) {
            subject_split(
                kernel,
                bindings,
                variables,
                kept.push(bindings[from]),
                conditions,
                from + 1,
            )
        } else {
            let equality = push_unique(
                conditions,
                PredicateV::Equals(TermV::Variable(variable), value),
            );
            subject_split(
                kernel,
                bindings,
                variables,
                kept,
                if value is Variable {
                    equality
                } else {
                    unique_extension(equality, kernel.ceil(value))
                },
                from + 1,
            )
        }
    }
}

fn bind_subject_variables<K: Kernel>(
    kernel: &K,
    substitution: &Substitution,
    variables: &Vec<Variable>,
    conditions: Vec<Predicate>,
) -> (result: (Substitution, Vec<Predicate>))
    ensures
        result.deep_view() == subject_split(
            kernel,
            substitution@,
            deep(variables@),
            Seq::empty(),
            deep(conditions@),
            0,
        ),
{
    let mut bindings: Vec<(Variable, Term)> = Vec::new();
    let mut found = conditions;
    let mut i: usize = 0;
    while i < substitution.bindings.len()
        invariant
            i <= substitution.bindings.len(),
            subject_split(
                kernel,
                substitution@,
                deep(variables@),
                Seq::empty(),
                deep(conditions@),
                0,
            ) == subject_split(
                kernel,
                substitution@,
                deep(variables@),
                deep(bindings@),
                deep(found@),
                i as int,
            ),
        decreases substitution.bindings.len() - i,
    {
        assert(deep(substitution.bindings@)[i as int]
            == substitution.bindings[i as int].deep_view());
        let variable = &substitution.bindings[i].0;
        let value = &substitution.bindings[i].1;
        proof {
            lemma_term_view(*value);
        }
        if contains(variables, variable) {
            bindings.push(substitution.bindings[i].duplicate());
        } else {
            add_unique(
                &mut found,
                Predicate::equality(Term::variable(variable.duplicate()), value.duplicate()),
            );
            if !matches!(value, Term::Variable(_)) {
                extend_unique(&mut found, kernel.ceil_term(value));
            }
        }
        i += 1;
    }
    (Substitution { bindings }, found)
}

// ---------------------------------------------------------------------------------------------
// Conditions
// ---------------------------------------------------------------------------------------------
/// The variables from `from` on that have no value, behind `found`.
pub open spec fn unbound_in(
    variables: Seq<VariableV>,
    substitution: SubstitutionV,
    found: Seq<VariableV>,
    from: int,
) -> Seq<VariableV>
    decreases variables.len() - from,
{
    if from >= variables.len() {
        found
    } else {
        let next = if assoc(substitution, variables[from]) is None {
            found.push(variables[from])
        } else {
            found
        };
        unbound_in(variables, substitution, next, from + 1)
    }
}

fn find_unbound(variables: &Vec<Variable>, substitution: &Substitution) -> (result: Vec<Variable>)
    ensures
        deep(result@) == unbound_in(deep(variables@), substitution@, Seq::empty(), 0),
{
    let mut found: Vec<Variable> = Vec::new();
    let mut i: usize = 0;
    while i < variables.len()
        invariant
            i <= variables.len(),
            unbound_in(deep(variables@), substitution@, Seq::empty(), 0) == unbound_in(
                deep(variables@),
                substitution@,
                deep(found@),
                i as int,
            ),
        decreases variables.len() - i,
    {
        assert(deep(variables@)[i as int] == variables[i as int]@);
        if substitution.get(&variables[i]).is_none() {
            found.push(variables[i].duplicate());
        }
        i += 1;
    }
    found
}

/// The bindings of a claim and the conditions under which it applies: those of its match and its
/// requirements. A requirement that gives a variable without a value one is a binding.
pub open spec fn claim_conditions<'a, K: Kernel, S: SmtSolver>(
    scope: ClaimScope<'a, K, S>,
    claim: ReachabilityClaimV,
    subject: PatternV,
    substitution: SubstitutionV,
    conditions: Seq<PredicateV>,
) -> ClaimMatched {
    match scope.spec_simplified(conditions, subject.constraints) {
        Err(outcome) => Err(outcome),
        Ok(conditions) => match scope.spec_simplified(
            predicates_substituted(claim.lhs.constraints, substitution),
            unique_extension(subject.constraints, conditions),
        ) {
            Err(outcome) => Err(outcome),
            Ok(required) => {
                let (defined, required) = extracted(
                    scope.definition.sort_graph@,
                    Some(unbound_in(claim_variables(claim), substitution, Seq::empty(), 0)),
                    required,
                );
                match scope.spec_simplified(
                    predicates_substituted(conditions, defined),
                    subject.constraints,
                ) {
                    Err(outcome) => Err(outcome),
                    Ok(conditions) => match scope.spec_simplified(
                        predicates_substituted(required, defined),
                        unique_extension(subject.constraints, conditions),
                    ) {
                        Err(outcome) => Err(outcome),
                        Ok(required) => Ok(
                            (
                                composed(defined, substitution),
                                undecided(
                                    unique_extension(conditions, required),
                                    subject.constraints,
                                    Seq::empty(),
                                    0,
                                ),
                            ),
                        ),
                    },
                }
            },
        },
    }
}

#[verifier::spinoff_prover]
fn find_claim_conditions<'a, K: Kernel, S: SmtSolver>(
    scope: &ClaimScope<'a, K, S>,
    claim: &ReachabilityClaim,
    subject: &Pattern,
    substitution: &Substitution,
    conditions: &Vec<Predicate>,
) -> (result: Result<(Substitution, Vec<Predicate>), ClaimApplication>)
    ensures
        result_view(result) == claim_conditions(
            *scope,
            claim@,
            subject@,
            substitution@,
            deep(conditions@),
        ),
{
    let open = match scope.simplify(conditions, &subject.constraints) {
        Ok(open) => open,
        Err(outcome) => {
            return Err(outcome);
        },
    };
    let mut knowledge = subject.constraints.duplicate();
    extend_unique(&mut knowledge, open.duplicate());
    let required = match scope.simplify(
        &substitute_predicates(&claim.lhs.constraints, substitution),
        &knowledge,
    ) {
        Ok(required) => required,
        Err(outcome) => {
            return Err(outcome);
        },
    };
    let unbound = find_unbound(&variables_of_claim(claim), substitution);
    let (defined, required) = extract_substitution_for(
        &required,
        unbound,
        &scope.definition.sort_graph,
    );
    let open = match scope.simplify(
        &substitute_predicates(&open, &defined),
        &subject.constraints,
    ) {
        Ok(open) => open,
        Err(outcome) => {
            return Err(outcome);
        },
    };
    let mut knowledge = subject.constraints.duplicate();
    extend_unique(&mut knowledge, open.duplicate());
    let required = match scope.simplify(
        &substitute_predicates(&required, &defined),
        &knowledge,
    ) {
        Ok(required) => required,
        Err(outcome) => {
            return Err(outcome);
        },
    };
    let mut all = open;
    extend_unique(&mut all, required);
    Ok((compose(&defined, substitution), keep_undecided(&all, &subject.constraints)))
}

/// The conditions that the solver leaves open.
pub open spec fn conditions_decided<'a, K: Kernel, S: SmtSolver>(
    scope: ClaimScope<'a, K, S>,
    subject: PatternV,
    conditions: Seq<PredicateV>,
) -> Result<Seq<PredicateV>, ClaimApplicationV> {
    if conditions.len() == 0 {
        Ok(conditions)
    } else {
        match scope.solver.validity(subject.constraints, Seq::empty(), conditions) {
            Ok(ValidityV::Valid) => Ok(Seq::empty()),
            Ok(ValidityV::Invalid) => Err(ClaimApplicationV::NotApplicable),
            Ok(ValidityV::InconsistentGroundTruth) => Err(ClaimApplicationV::NotApplicable),
            Ok(ValidityV::Indeterminate) => Ok(conditions),
            Err(SmtErrorV::Unavailable) => Ok(conditions),
            Ok(ValidityV::Unknown(reason)) => Err(
                ClaimApplicationV::Indeterminate(
                    ClaimIndeterminateReasonV::Smt(SmtErrorV::Unknown(reason)),
                ),
            ),
            Err(error) => Err(
                ClaimApplicationV::Indeterminate(ClaimIndeterminateReasonV::Smt(error)),
            ),
        }
    }
}

#[verifier::spinoff_prover]
fn decide_conditions<'a, K: Kernel, S: SmtSolver>(
    scope: &ClaimScope<'a, K, S>,
    subject: &Pattern,
    conditions: Vec<Predicate>,
) -> (result: Result<Vec<Predicate>, ClaimApplication>)
    ensures
        result_view(result) == conditions_decided(*scope, subject@, deep(conditions@)),
{
    if conditions.len() == 0 {
        return Ok(conditions);
    }
    match scope.solver.check_predicates(
        &subject.constraints,
        &Substitution::new(),
        &conditions,
    ) {
        Ok(Validity::Valid) => Ok(Vec::new()),
        Ok(Validity::Invalid) | Ok(Validity::InconsistentGroundTruth) => Err(
            ClaimApplication::NotApplicable,
        ),
        Ok(Validity::Indeterminate) | Err(SmtError::Unavailable) => Ok(conditions),
        Ok(Validity::Unknown(reason)) => Err(
            ClaimApplication::Indeterminate(
                ClaimIndeterminateReason::Smt(SmtError::Unknown(reason)),
            ),
        ),
        Err(error) => Err(
            ClaimApplication::Indeterminate(ClaimIndeterminateReason::Smt(error)),
        ),
    }
}

// ---------------------------------------------------------------------------------------------
// Application
// ---------------------------------------------------------------------------------------------
/// Whether what a claim leaves of a subject has no instance.
pub open spec fn left_is_empty<'a, K: Kernel, S: SmtSolver>(
    scope: ClaimScope<'a, K, S>,
    subject: PatternV,
    negated: PredicateV,
) -> bool {
    match conjunction_simplified(
        scope.definition,
        scope.solver,
        seq![negated],
        subject.constraints,
        scope.options,
    ) {
        Err(_) => false,
        Ok(simple) => conjunction_truth(simple) is False || (match scope.solver.satisfiability(
            unique_extension(subject.constraints, simple),
            Seq::empty(),
        ) {
            Ok(SatisfiabilityV::Unsat) => true,
            _ => false,
        }),
    }
}

fn remainder_is_unsatisfiable<'a, K: Kernel, S: SmtSolver>(
    scope: &ClaimScope<'a, K, S>,
    subject: &Pattern,
    negated: &Predicate,
) -> (result: bool)
    ensures
        result == left_is_empty(*scope, subject@, negated@),
{
    let mut predicates: Vec<Predicate> = Vec::new();
    predicates.push(negated.duplicate());
    assert(deep(predicates@) =~= seq![negated@]);
    let simple = match simplify_predicates_with_solver(
        scope.definition,
        &predicates,
        &subject.constraints,
        scope.options,
        scope.solver,
    ) {
        Ok(simple) => simple,
        Err(_) => {
            return false;
        },
    };
    if matches!(predicates_truth(&simple), Truth::False) {
        return true;
    }
    let mut constraints = subject.constraints.duplicate();
    extend_unique(&mut constraints, simple);
    match scope.solver.is_sat(&constraints, &Substitution::new()) {
        Ok(Satisfiability::Unsat) => true,
        _ => false,
    }
}

/// The case that a claim leaves, where it applies under conditions.
pub open spec fn complement_of(subject: PatternV, conditions: Seq<PredicateV>) -> PredicateV {
    normalized(
        PredicateV::Not(Box::new(introduced_quantified(pattern_variables(subject), conditions))),
    )
}

/// What a claim leaves of a subject.
pub open spec fn claim_remainder<'a, K: Kernel, S: SmtSolver>(
    scope: ClaimScope<'a, K, S>,
    subject: PatternV,
    conditions: Seq<PredicateV>,
    unique_id: Seq<char>,
) -> Option<RemainderBranchV> {
    let negated = complement_of(subject, conditions);
    if conditions.len() == 0 || left_is_empty(scope, subject, negated) {
        None
    } else {
        Some(
            RemainderBranchV {
                pattern: PatternV {
                    constraints: push_unique(subject.constraints, negated),
                    ..subject
                },
                rule_ids: seq!["claim:"@ + unique_id],
            },
        )
    }
}

/// The right-hand sides from `from` on under the bindings, where `known` holds, behind `found`.
pub open spec fn destinations(
    rhs: Seq<PatternV>,
    substitution: SubstitutionV,
    known: Seq<PredicateV>,
    found: Seq<PatternV>,
    from: int,
) -> Seq<PatternV>
    decreases rhs.len() - from,
{
    if from >= rhs.len() {
        found
    } else {
        destinations(
            rhs,
            substitution,
            known,
            found.push(
                PatternV {
                    term: substituted(rhs[from].term, substitution),
                    constraints: unique_extension(
                        known,
                        predicates_substituted(rhs[from].constraints, substitution),
                    ),
                },
            ),
            from + 1,
        )
    }
}

fn make_destinations(
    rhs: &Vec<Pattern>,
    substitution: &Substitution,
    known: &Vec<Predicate>,
) -> (result: Vec<Pattern>)
    ensures
        deep(result@) == destinations(
            deep(rhs@),
            substitution@,
            deep(known@),
            Seq::empty(),
            0,
        ),
{
    let mut found: Vec<Pattern> = Vec::new();
    let mut i: usize = 0;
    while i < rhs.len()
        invariant
            i <= rhs.len(),
            destinations(deep(rhs@), substitution@, deep(known@), Seq::empty(), 0)
                == destinations(
                deep(rhs@),
                substitution@,
                deep(known@),
                deep(found@),
                i as int,
            ),
        decreases rhs.len() - i,
    {
        assert(deep(rhs@)[i as int] == rhs[i as int]@);
        let mut constraints = known.duplicate();
        extend_unique(
            &mut constraints,
            substitute_predicates(&rhs[i].constraints, substitution),
        );
        found.push(Pattern { term: substitute(&rhs[i].term, substitution), constraints });
        i += 1;
    }
    found
}

/// What a claim with fresh variables gives.
pub open spec fn fresh_claim_applied<'a, K: Kernel, S: SmtSolver>(
    scope: ClaimScope<'a, K, S>,
    claim: ReachabilityClaimV,
    subject: PatternV,
) -> ClaimApplicationV {
    match claim_matched(scope, claim, subject) {
        Err(outcome) => outcome,
        Ok((substitution, conditions)) => {
            let (substitution, conditions) = subject_split(
                &scope.definition.kernel,
                substitution,
                claim_variables(claim),
                Seq::empty(),
                conditions,
                0,
            );
            match claim_conditions(scope, claim, subject, substitution, conditions) {
                Err(outcome) => outcome,
                Ok((substitution, conditions)) => match conditions_decided(
                    scope,
                    subject,
                    conditions,
                ) {
                    Err(outcome) => outcome,
                    Ok(conditions) => if conditions.len() > 0 && holds_alpha_equal(
                        subject.constraints,
                        complement_of(subject, conditions),
                        0,
                    ) {
                        ClaimApplicationV::NotApplicable
                    } else {
                        ClaimApplicationV::Applied {
                            patterns: destinations(
                                claim.rhs,
                                substitution,
                                unique_extension(subject.constraints, conditions),
                                Seq::empty(),
                                0,
                            ),
                            remainder: claim_remainder(
                                scope,
                                subject,
                                conditions,
                                claim.attributes.unique_id,
                            ),
                        }
                    },
                },
            }
        },
    }
}

/// What applying a claim to a subject gives, and the counter for fresh names behind it.
#[verifier::opaque]
pub open spec fn claim_applied<'a, K: Kernel, S: SmtSolver>(
    scope: ClaimScope<'a, K, S>,
    claim: ReachabilityClaimV,
    subject: PatternV,
    counter: u64,
) -> (ClaimApplicationV, u64) {
    let (fresh, after) = claim_freshened(claim, subject, counter);
    (fresh_claim_applied(scope, fresh, subject), after)
}

#[verifier::spinoff_prover]
fn make_remainder<'a, K: Kernel, S: SmtSolver>(
    scope: &ClaimScope<'a, K, S>,
    subject: &Pattern,
    negated: Predicate,
    unique_id: &String,
) -> (result: Option<RemainderBranch>)
    ensures
        result.deep_view() == (if left_is_empty(*scope, subject@, negated@) {
            None
        } else {
            Some(
                RemainderBranchV {
                    pattern: PatternV {
                        constraints: push_unique(subject@.constraints, negated@),
                        ..subject@
                    },
                    rule_ids: seq!["claim:"@ + unique_id@],
                },
            )
        }),
{
    if remainder_is_unsatisfiable(scope, subject, &negated) {
        return None;
    }
    let mut constraints = subject.constraints.duplicate();
    add_unique(&mut constraints, negated);
    let mut id = "claim:".to_owned();
    id.append(unique_id.as_str());
    let ghost expected = seq!["claim:"@ + unique_id@];
    let mut rule_ids: Vec<String> = Vec::new();
    rule_ids.push(id);
    assert(deep(rule_ids@) =~= expected);
    Some(
        RemainderBranch {
            pattern: Pattern { term: subject.term.duplicate(), constraints },
            rule_ids,
        },
    )
}

#[verifier::spinoff_prover]
fn apply_fresh_claim<'a, K: Kernel, S: SmtSolver>(
    scope: &ClaimScope<'a, K, S>,
    claim: &ReachabilityClaim,
    subject: &Pattern,
) -> (result: ClaimApplication)
    ensures
        result@ == fresh_claim_applied(*scope, claim@, subject@),
{
    let (substitution, conditions) = match match_claim(scope, claim, subject) {
        Ok(matched) => matched,
        Err(outcome) => {
            return outcome;
        },
    };
    let (substitution, conditions) = bind_subject_variables(
        &scope.definition.kernel,
        &substitution,
        &variables_of_claim(claim),
        conditions,
    );
    let (substitution, conditions) = match find_claim_conditions(
        scope,
        claim,
        subject,
        &substitution,
        &conditions,
    ) {
        Ok(found) => found,
        Err(outcome) => {
            return outcome;
        },
    };
    let conditions = match decide_conditions(scope, subject, conditions) {
        Ok(conditions) => conditions,
        Err(outcome) => {
            return outcome;
        },
    };
    let mut remainder = None;
    if conditions.len() > 0 {
        let condition = quantify_introduced_variables(subject, conditions.duplicate());
        let negated = normalize_predicate(&Predicate::negation(condition));
        if conjunctively_contains_alpha_equivalent(&subject.constraints, &negated) {
            return ClaimApplication::NotApplicable;
        }
        remainder = make_remainder(scope, subject, negated, &claim.attributes.unique_id);
    }
    let mut known = subject.constraints.duplicate();
    extend_unique(&mut known, conditions);
    ClaimApplication::Applied {
        patterns: make_destinations(&claim.rhs, &substitution, &known),
        remainder,
    }
}

/// Apply a claim to a subject. The case that it does not cover is a remainder, which is left out
/// where it has no instance; a subject that is the remainder of the same claim is not covered.
pub fn apply_claim<'a, K: Kernel, S: SmtSolver>(
    scope: &ClaimScope<'a, K, S>,
    claim: &ReachabilityClaim,
    subject: &Pattern,
    counter: &mut u64,
) -> (result: ClaimApplication)
    ensures
        (result@, *final(counter)) == claim_applied(*scope, claim@, subject@, *old(counter)),
{
    reveal(claim_applied);
    let fresh = freshen_claim(claim, subject, counter);
    apply_fresh_claim(scope, &fresh, subject)
}

// ---------------------------------------------------------------------------------------------
// Laws
// ---------------------------------------------------------------------------------------------
proof fn lemma_free_claim_counter(
    name: Seq<char>,
    avoided: Seq<Seq<char>>,
    counter: u64,
    fuel: nat,
    steps: int,
)
    requires
        0 <= steps <= fuel <= u64::MAX,
        !avoided.contains(claim_name(name, counter_behind(counter, steps))),
    ensures
        !avoided.contains(claim_name(name, free_claim_counter(name, avoided, counter, fuel))),
    decreases fuel,
{
    if fuel > 0 && avoided.contains(claim_name(name, counter)) {
        assert(steps > 0);
        assert(counter_behind(next_counter(counter), steps - 1) == counter_behind(
            counter,
            steps,
        ));
        lemma_free_claim_counter(
            name,
            avoided,
            next_counter(counter),
            (fuel - 1) as nat,
            steps - 1,
        );
    }
}

proof fn lemma_claim_name_injective(name: Seq<char>, left: u64, right: u64)
    requires
        claim_name(name, left) == claim_name(name, right),
    ensures
        left == right,
{
    let start = (name + "!claim"@).len();
    let a = claim_name(name, left);
    let b = claim_name(name, right);
    assert(a.subrange(start as int, a.len() as int) =~= decimal(left as nat));
    assert(b.subrange(start as int, b.len() as int) =~= decimal(right as nat));
    lemma_decimal_injective(left as nat, right as nat);
}

/// A variable of a claim gets a name that is not in use in the subject.
pub proof fn law_claim_name_is_new(name: Seq<char>, avoided: Seq<Seq<char>>, counter: u64)
    requires
        avoided.len() <= u64::MAX,
    ensures
        !avoided.contains(
            claim_name(name, free_claim_counter(name, avoided, counter, avoided.len())),
        ),
{
    let made = |i: int| claim_name(name, counter_behind(counter, i));
    assert forall|i: int, j: int|
        #![trigger made(i), made(j)]
        0 <= i <= avoided.len() && 0 <= j <= avoided.len() && made(i) == made(j) implies i == j by {
        lemma_claim_name_injective(
            name,
            counter_behind(counter, i),
            counter_behind(counter, j),
        );
    }
    lemma_some_name_is_free(avoided, made);
    let i = choose|i: int| 0 <= i <= avoided.len() && !avoided.contains(#[trigger] made(i));
    lemma_free_claim_counter(name, avoided, counter, avoided.len(), i);
}

} // verus!
