//! The parts of simplification that do not simplify anything further.

use vstd::prelude::*;
use crate::assoc::{assoc, assoc_get};
use crate::construct::constructor_like;
use crate::definition::BackendDefinition;
use crate::domain::{violates_domain, violates_finite_constructor_domain};
use crate::equations::{
    with_constraints, with_simplification_constraints, EquationAlternative, EquationAlternativeV,
};
use crate::index::PredicateIndex;
use crate::diagnostic::{hook_diagnostic, hook_told, tell, told};
use crate::kernel::{
    result_view, BuiltinEffectV, BuiltinErrorV, BuiltinResultV, Kernel, UnsupportedHookReason,
    UnsupportedHookReasonV,
};
use crate::model::{contains, deep, difference, group_deep, subtract, Value};
use crate::path::{
    collect_conjunctive_equalities, conjunctive_equalities, PathConditionReplacements,
    PathConditionReplacementsV,
};
use crate::predicate::{lemma_predicate_view, Predicate, PredicateV};
use crate::rule::{index_of, term_index, RewriteRule, RewriteRuleV};
use crate::simplify_types::{
    BudgetExhaustion, BudgetPolicy, BudgetSubject, EnsuresVerdict, EnsuresVerdictV, Simplification,
    SimplificationError, SimplificationErrorV, SimplificationOptions, SimplificationV,
};
use crate::solver::SmtSolver;
use crate::term::{lemma_term_view, Term, TermV};

verus! {

broadcast use group_deep;

// ---------------------------------------------------------------------------------------------
// What simplification refers to
// ---------------------------------------------------------------------------------------------
/// The definition and the solver.
pub struct Environment<'a, K: Kernel, S: SmtSolver> {
    pub definition: &'a BackendDefinition<K>,
    pub solver: &'a S,
}

/// What is known, how far to go, and the conditions of equations, by rule and subject, that are
/// being simplified.
pub struct Scope<'a> {
    pub known: &'a Vec<Predicate>,
    pub options: SimplificationOptions,
    pub active: &'a Vec<(String, Term)>,
}

/// The view of a [`Scope`].
pub struct ScopeV {
    pub known: Seq<PredicateV>,
    pub options: SimplificationOptions,
    pub active: Seq<(Seq<char>, TermV)>,
}

impl<'a> View for Scope<'a> {
    type V = ScopeV;

    open spec fn view(&self) -> ScopeV {
        ScopeV { known: deep(self.known@), options: self.options, active: deep(self.active@) }
    }
}

/// What is assumed of a predicate's surroundings: replacements in terms, predicates that hold, and
/// the one that is being simplified itself, which may not be used.
pub struct Assumptions<'a> {
    pub path: &'a PathConditionReplacements,
    pub conjuncts: &'a PredicateIndex,
    pub excluded: Option<&'a Predicate>,
}

/// The view of [`Assumptions`].
pub struct AssumptionsV {
    pub path: PathConditionReplacementsV,
    pub conjuncts: Seq<PredicateV>,
    pub excluded: Option<PredicateV>,
}

impl<'a> View for Assumptions<'a> {
    type V = AssumptionsV;

    open spec fn view(&self) -> AssumptionsV {
        AssumptionsV {
            path: self.path@,
            conjuncts: self.conjuncts@,
            excluded: self.excluded.deep_view(),
        }
    }
}

/// Whether `predicate` is assumed.
pub open spec fn assumed(assumptions: AssumptionsV, predicate: PredicateV) -> bool {
    assumptions.conjuncts.contains(predicate) && assumptions.excluded != Some(predicate)
}

impl<'a> Assumptions<'a> {
    pub(crate) fn contains(&self, predicate: &Predicate) -> (result: bool)
        requires
            self.conjuncts.well_formed(),
        ensures
            result == assumed(self@, predicate@),
    {
        if !self.conjuncts.contains(predicate) {
            return false;
        }
        match self.excluded {
            Some(excluded) => !excluded.equals(predicate),
            None => true,
        }
    }

    pub(crate) fn contains_negation(&self, predicate: &Predicate) -> (result: bool)
        requires
            self.conjuncts.well_formed(),
        ensures
            result == assumed(self@, PredicateV::Not(Box::new(predicate@))),
    {
        self.contains(&Predicate::negation(predicate.duplicate()))
    }
}

/// The same options, with failure when the iterations are used up.
pub open spec fn strict(options: SimplificationOptions) -> SimplificationOptions {
    SimplificationOptions { max_iterations: options.max_iterations, budget: BudgetPolicy::Fail }
}

/// The same scope, with failure when the iterations are used up.
pub open spec fn strict_scope(scope: ScopeV) -> ScopeV {
    ScopeV { options: strict(scope.options), ..scope }
}

/// `scope` where a budget that is used up is an error.
pub(crate) fn make_strict<'a>(scope: &Scope<'a>) -> (result: Scope<'a>)
    ensures
        result@ == strict_scope(scope@),
{
    Scope {
        known: scope.known,
        options: SimplificationOptions {
            max_iterations: scope.options.max_iterations,
            budget: BudgetPolicy::Fail,
        },
        active: scope.active,
    }
}

/// What one attempt to apply an equation gives.
pub enum EquationAttempt<T> {
    NotApplicable,
    Indeterminate,
    Applied(T),
}

/// The view of an attempt.
pub open spec fn attempt_view<T: DeepView>(attempt: EquationAttempt<T>) -> EquationAttempt<T::V> {
    match attempt {
        EquationAttempt::NotApplicable => EquationAttempt::NotApplicable,
        EquationAttempt::Indeterminate => EquationAttempt::Indeterminate,
        EquationAttempt::Applied(result) => EquationAttempt::Applied(result.deep_view()),
    }
}

/// The view of an attempt that may fail.
pub open spec fn attempted<T: DeepView>(
    result: Result<EquationAttempt<T>, SimplificationError>,
) -> Result<EquationAttempt<T::V>, SimplificationErrorV> {
    match result {
        Ok(attempt) => Ok(attempt_view(attempt)),
        Err(error) => Err(error@),
    }
}

/// What trying the equations of one priority gives: the first that applies, that one of them may
/// apply, or that none does.
pub enum GroupScan<T> {
    Applied(T),
    Blocked,
    NotApplicable,
}

/// The view of a scan that may fail.
pub open spec fn scan_view<T: DeepView>(
    result: Result<GroupScan<T>, SimplificationError>,
) -> Result<GroupScan<T::V>, SimplificationErrorV> {
    match result {
        Ok(GroupScan::Applied(result)) => Ok(GroupScan::Applied(result.deep_view())),
        Ok(GroupScan::Blocked) => Ok(GroupScan::Blocked),
        Ok(GroupScan::NotApplicable) => Ok(GroupScan::NotApplicable),
        Err(error) => Err(error@),
    }
}

// ---------------------------------------------------------------------------------------------
// Pieces of results
// ---------------------------------------------------------------------------------------------
/// `term` as it stands.
pub open spec fn unchanged(term: TermV) -> SimplificationV {
    SimplificationV {
        term,
        constraints: Seq::empty(),
        applied_rules: Seq::empty(),
        effects: Seq::empty(),
        exhausted: None,
    }
}

/// What was done before and then `next`.
pub open spec fn joined(before: SimplificationV, next: SimplificationV) -> SimplificationV {
    SimplificationV {
        term: next.term,
        constraints: before.constraints + next.constraints,
        applied_rules: before.applied_rules + next.applied_rules,
        effects: before.effects + next.effects,
        exhausted: if before.exhausted is Some {
            before.exhausted
        } else {
            next.exhausted
        },
    }
}

pub(crate) fn leave(term: Term) -> (result: Simplification)
    ensures
        result@ == unchanged(term@),
{
    Simplification {
        term,
        constraints: Vec::new(),
        applied_rules: Vec::new(),
        effects: Vec::new(),
        exhausted: None,
    }
}

pub(crate) fn join(before: Simplification, next: Simplification) -> (result: Simplification)
    ensures
        result@ == joined(before@, next@),
{
    let mut constraints = before.constraints;
    let mut applied_rules = before.applied_rules;
    let mut effects = before.effects;
    let mut next_constraints = next.constraints;
    let mut next_rules = next.applied_rules;
    let mut next_effects = next.effects;
    constraints.append(&mut next_constraints);
    applied_rules.append(&mut next_rules);
    effects.append(&mut next_effects);
    let exhausted = match before.exhausted {
        Some(exhausted) => Some(exhausted),
        None => next.exhausted,
    };
    Simplification { term: next.term, constraints, applied_rules, effects, exhausted }
}

/// The result when the iterations are used up.
pub open spec fn budget_spent(
    options: SimplificationOptions,
    reached: SimplificationV,
) -> Result<SimplificationV, SimplificationErrorV> {
    match options.budget {
        BudgetPolicy::Fail => Err(
            SimplificationErrorV::IterationLimit {
                limit: options.max_iterations,
                term: reached.term,
            },
        ),
        BudgetPolicy::KeepPartial => Ok(
            SimplificationV {
                exhausted: Some(
                    BudgetExhaustion {
                        limit: options.max_iterations,
                        subject: BudgetSubject::Term,
                    },
                ),
                ..reached
            },
        ),
    }
}

pub(crate) fn spend_budget(options: SimplificationOptions, reached: Simplification) -> (result: Result<
    Simplification,
    SimplificationError,
>)
    ensures
        result_view(result) == budget_spent(options, reached@),
{
    match options.budget {
        BudgetPolicy::Fail => Err(
            SimplificationError::IterationLimit {
                limit: options.max_iterations,
                term: reached.term,
            },
        ),
        BudgetPolicy::KeepPartial => Ok(
            Simplification {
                exhausted: Some(
                    BudgetExhaustion {
                        limit: options.max_iterations,
                        subject: BudgetSubject::Term,
                    },
                ),
                ..reached
            },
        ),
    }
}

/// Whether `term` is an application of a builtin function.
pub open spec fn hooked(term: TermV) -> bool {
    term is Application && term->Application_symbol.attributes.hook is Some
}

/// The outcome of evaluating `term` as a builtin function.
pub open spec fn builtin_outcome<K: Kernel>(
    definition: BackendDefinition<K>,
    term: TermV,
) -> Result<BuiltinResultV, BuiltinErrorV> {
    if hooked(term) {
        definition.kernel.evaluation(term)
    } else {
        Ok(BuiltinResultV::NotApplicable)
    }
}

/// The result of a builtin function.
pub open spec fn builtin_simplification(
    application: TermV,
    term: TermV,
    constraints: Seq<PredicateV>,
    effects: Seq<BuiltinEffectV>,
) -> SimplificationV {
    SimplificationV {
        term,
        constraints,
        applied_rules: seq![
            "builtin:"@ + application->Application_symbol.attributes.hook->0,
        ],
        effects,
        exhausted: None,
    }
}

/// What a term is that neither a builtin function nor an equation reduces. A builtin function on
/// constructor-like arguments should have been reduced.
pub open spec fn irreducible<K: Kernel>(
    definition: BackendDefinition<K>,
    term: TermV,
    unsupported: Option<UnsupportedHookReasonV>,
) -> Result<SimplificationV, SimplificationErrorV> {
    if hooked(term) && all_constructor_like(term->Application_arguments) {
        let has_equations = assoc(definition.function_theory@, index_of(term)) is Some || assoc(
            definition.simplification_theory@,
            index_of(term),
        ) is Some;
        let hook = term->Application_symbol.attributes.hook->0;
        match unsupported {
            Some(reason) => if reason is NotImplemented && has_equations {
                Ok(unchanged(term))
            } else {
                Err(SimplificationErrorV::UnsupportedHook { hook, reason, term })
            },
            None => Err(
                SimplificationErrorV::UnsupportedHook {
                    hook,
                    reason: UnsupportedHookReasonV::ArgumentOutOfRange {
                        detail: "the evaluator did not reduce constructor-like arguments"@,
                    },
                    term,
                },
            ),
        }
    } else {
        Ok(unchanged(term))
    }
}

/// Whether all terms are constructor-like.
pub open spec fn all_constructor_like(terms: Seq<TermV>) -> bool {
    forall|i: int| 0 <= i < terms.len() ==> constructor_like(#[trigger] terms[i])
}

pub(crate) fn are_constructor_like(terms: &Vec<Term>) -> (result: bool)
    ensures
        result == all_constructor_like(deep(terms@)),
{
    let mut i: usize = 0;
    while i < terms.len()
        invariant
            i <= terms.len(),
            forall|j: int| 0 <= j < i ==> constructor_like(#[trigger] deep(terms@)[j]),
        decreases terms.len() - i,
    {
        assert(deep(terms@)[i as int] == terms[i as int]@);
        if !terms[i].is_constructor_like() {
            return false;
        }
        i += 1;
    }
    true
}

pub(crate) fn leave_irreducible<K: Kernel>(
    definition: &BackendDefinition<K>,
    term: &Term,
    unsupported: Option<UnsupportedHookReason>,
) -> (result: Result<Simplification, SimplificationError>)
    ensures
        result_view(result) == irreducible(*definition, term@, unsupported.deep_view()),
        told(definition.kernel, hook_told(term@, unsupported.deep_view())),
{
    proof {
        lemma_term_view(*term);
    }
    tell(&definition.kernel, hook_diagnostic(term, &unsupported));
    if let Term::Application { symbol, arguments, .. } = term {
        if let Some(hook) = &symbol.attributes.hook {
            if are_constructor_like(arguments) {
                let index = term_index(term);
                let has_equations: bool = assoc_get(
                    &definition.function_theory.entries,
                    &index,
                ).is_some() || assoc_get(
                    &definition.simplification_theory.entries,
                    &index,
                ).is_some();
                let reason = match unsupported {
                    Some(UnsupportedHookReason::NotImplemented) => {
                        if has_equations {
                            return Ok(leave(term.duplicate()));
                        }
                        UnsupportedHookReason::NotImplemented
                    },
                    Some(reason) => reason,
                    None => UnsupportedHookReason::ArgumentOutOfRange {
                        detail:
                            "the evaluator did not reduce constructor-like arguments".to_owned(),
                    },
                };
                return Err(
                    SimplificationError::UnsupportedHook {
                        hook: hook.clone(),
                        reason,
                        term: term.duplicate(),
                    },
                );
            }
        }
    }
    Ok(leave(term.duplicate()))
}

/// The result of an equation that was applied, by the outcomes that are not refuted.
pub open spec fn equation_outcome(
    rule: RewriteRuleV,
    term: TermV,
    live: Seq<(TermV, Seq<PredicateV>)>,
) -> Result<EquationAttempt<SimplificationV>, SimplificationErrorV> {
    let rule_id = rule.attributes.unique_id;
    if live.len() == 0 {
        Ok(
            EquationAttempt::Applied(
                SimplificationV {
                    constraints: seq![PredicateV::False],
                    applied_rules: seq![rule_id],
                    ..unchanged(term)
                },
            ),
        )
    } else if live.len() == 1 {
        Ok(
            EquationAttempt::Applied(
                SimplificationV {
                    constraints: live[0].1,
                    applied_rules: seq![rule_id],
                    ..unchanged(live[0].0)
                },
            ),
        )
    } else {
        Err(
            SimplificationErrorV::DisjunctiveResult { rule_id, alternatives: live.len() as usize },
        )
    }
}

pub(crate) fn conclude_equation(rule: &RewriteRule, term: &Term, live: Vec<(Term, Vec<Predicate>)>) -> (result:
    Result<EquationAttempt<Simplification>, SimplificationError>)
    ensures
        attempted(result) == equation_outcome(rule@, term@, deep(live@)),
{
    let mut live = live;
    let mut applied_rules: Vec<String> = Vec::new();
    applied_rules.push(rule.attributes.unique_id.clone());
    assert(deep(applied_rules@) =~= seq![rule@.attributes.unique_id]);
    if live.len() == 0 {
        let mut constraints: Vec<Predicate> = Vec::new();
        constraints.push(Predicate::constant(false));
        assert(deep(constraints@) =~= seq![PredicateV::False]);
        Ok(
            EquationAttempt::Applied(
                Simplification {
                    term: term.duplicate(),
                    constraints,
                    applied_rules,
                    effects: Vec::new(),
                    exhausted: None,
                },
            ),
        )
    } else if live.len() == 1 {
        assert(deep(live@)[0] == live[0].deep_view());
        let (term, constraints) = live.remove(0);
        Ok(
            EquationAttempt::Applied(
                Simplification {
                    term,
                    constraints,
                    applied_rules,
                    effects: Vec::new(),
                    exhausted: None,
                },
            ),
        )
    } else {
        Err(
            SimplificationError::DisjunctiveResult {
                rule_id: rule.attributes.unique_id.clone(),
                alternatives: live.len(),
            },
        )
    }
}

/// `live` with one more outcome, by what is known of what it ensures.
pub open spec fn live_with(
    live: Seq<(TermV, Seq<PredicateV>)>,
    alternative: EquationAlternativeV,
    disjunction: bool,
    verdict: EnsuresVerdictV,
) -> Seq<(TermV, Seq<PredicateV>)> {
    match verdict {
        EnsuresVerdictV::Refuted => if disjunction {
            live
        } else {
            live.push((alternative.term, seq![PredicateV::False]))
        },
        EnsuresVerdictV::Holds => live.push(
            (
                alternative.term,
                if alternative.bottom {
                    seq![PredicateV::False]
                } else {
                    Seq::empty()
                },
            ),
        ),
        EnsuresVerdictV::Open(constraints) => live.push(
            (
                alternative.term,
                if alternative.bottom {
                    constraints.push(PredicateV::False)
                } else {
                    constraints
                },
            ),
        ),
    }
}

pub(crate) fn add_live(
    live: &mut Vec<(Term, Vec<Predicate>)>,
    alternative: &EquationAlternative,
    disjunction: bool,
    verdict: EnsuresVerdict,
)
    ensures
        deep(final(live)@) == live_with(
            deep(old(live)@),
            alternative@,
            disjunction,
            verdict@,
        ),
{
    let mut constraints: Vec<Predicate> = Vec::new();
    match verdict {
        EnsuresVerdict::Refuted => {
            if disjunction {
                return ;
            }
            constraints.push(Predicate::constant(false));
            assert(deep(constraints@) =~= seq![PredicateV::False]);
        },
        EnsuresVerdict::Holds => {
            if alternative.bottom {
                constraints.push(Predicate::constant(false));
                assert(deep(constraints@) =~= seq![PredicateV::False]);
            }
        },
        EnsuresVerdict::Open(open) => {
            constraints = open;
            if alternative.bottom {
                constraints.push(Predicate::constant(false));
            }
        },
    }
    live.push((alternative.term.duplicate(), constraints));
}

// ---------------------------------------------------------------------------------------------
// The predicates around a part of a conjunction
// ---------------------------------------------------------------------------------------------
/// What is known while the part at `current` is simplified: `found`, and the other parts from
/// `from` on that are not known anyway, where the part itself is left out.
pub open spec fn surrounding_predicates(
    found: Seq<PredicateV>,
    parts: Seq<PredicateV>,
    known: Seq<PredicateV>,
    current: int,
    from: int,
) -> Seq<PredicateV>
    decreases parts.len() - from,
{
    if from >= parts.len() {
        found
    } else if known.contains(parts[from]) {
        surrounding_predicates(found, parts, known, current, from + 1)
    } else {
        surrounding_predicates(
            found.push(
                if from == current {
                    PredicateV::True
                } else {
                    parts[from]
                },
            ),
            parts,
            known,
            current,
            from + 1,
        )
    }
}

/// The equalities that are known while the part at `current` is simplified.
pub open spec fn surrounding_equalities(
    found: Seq<(TermV, TermV)>,
    parts: Seq<PredicateV>,
    known: Seq<PredicateV>,
    current: int,
    from: int,
) -> Seq<(TermV, TermV)>
    decreases parts.len() - from,
{
    if from >= parts.len() {
        found
    } else if known.contains(parts[from]) || from == current || !(parts[from] is Equals) {
        surrounding_equalities(found, parts, known, current, from + 1)
    } else {
        surrounding_equalities(
            found.push((parts[from]->Equals_0, parts[from]->Equals_1)),
            parts,
            known,
            current,
            from + 1,
        )
    }
}

pub(crate) fn collect_surrounding_predicates(
    known_predicates: &Vec<Predicate>,
    parts: &Vec<Predicate>,
    known: &PredicateIndex,
    current: usize,
) -> (result: Vec<Predicate>)
    requires
        known.well_formed(),
    ensures
        deep(result@) == surrounding_predicates(
            deep(known_predicates@),
            deep(parts@),
            known@,
            current as int,
            0,
        ),
{
    let mut found = known_predicates.duplicate();
    let mut i: usize = 0;
    while i < parts.len()
        invariant
            i <= parts.len(),
            known.well_formed(),
            surrounding_predicates(
                deep(known_predicates@),
                deep(parts@),
                known@,
                current as int,
                0,
            ) == surrounding_predicates(
                deep(found@),
                deep(parts@),
                known@,
                current as int,
                i as int,
            ),
        decreases parts.len() - i,
    {
        assert(deep(parts@)[i as int] == parts[i as int]@);
        if !known.contains(&parts[i]) {
            if i == current {
                found.push(Predicate::constant(true));
            } else {
                found.push(parts[i].duplicate());
            }
        }
        i += 1;
    }
    found
}

pub(crate) fn collect_surrounding_equalities(
    known_predicates: &Vec<Predicate>,
    parts: &Vec<Predicate>,
    known: &PredicateIndex,
    current: usize,
) -> (result: Vec<(Term, Term)>)
    requires
        known.well_formed(),
    ensures
        deep(result@) == surrounding_equalities(
            conjunctive_equalities(deep(known_predicates@), Seq::empty(), 0),
            deep(parts@),
            known@,
            current as int,
            0,
        ),
{
    let mut found: Vec<(Term, Term)> = Vec::new();
    collect_conjunctive_equalities(known_predicates, &mut found);
    let ghost start = deep(found@);
    let mut i: usize = 0;
    while i < parts.len()
        invariant
            i <= parts.len(),
            known.well_formed(),
            surrounding_equalities(start, deep(parts@), known@, current as int, 0)
                == surrounding_equalities(
                deep(found@),
                deep(parts@),
                known@,
                current as int,
                i as int,
            ),
        decreases parts.len() - i,
    {
        proof {
            assert(deep(parts@)[i as int] == parts[i as int]@);
            lemma_predicate_view(parts[i as int]);
        }
        if !known.contains(&parts[i]) && i != current {
            if let Predicate::Equals(left, right) = &parts[i] {
                found.push((left.duplicate(), right.duplicate()));
            }
        }
        i += 1;
    }
    found
}

/// The simplified parts of a conjunction, without the constants.
pub open spec fn tidy_parts<K: Kernel>(
    definition: BackendDefinition<K>,
    simplified: Seq<PredicateV>,
) -> Seq<PredicateV> {
    if violates_domain(definition, simplified) || simplified.contains(PredicateV::False) {
        seq![PredicateV::False]
    } else {
        difference(simplified, seq![PredicateV::True])
    }
}

pub(crate) fn tidy<K: Kernel>(definition: &BackendDefinition<K>, simplified: Vec<Predicate>) -> (result: Vec<
    Predicate,
>)
    ensures
        deep(result@) == tidy_parts(*definition, deep(simplified@)),
{
    let never = Predicate::constant(false);
    if violates_finite_constructor_domain(definition, &simplified) || contains(
        &simplified,
        &never,
    ) {
        let mut result: Vec<Predicate> = Vec::new();
        result.push(never);
        assert(deep(result@) =~= seq![PredicateV::False]);
        return result;
    }
    let mut always: Vec<Predicate> = Vec::new();
    always.push(Predicate::constant(true));
    assert(deep(always@) =~= seq![PredicateV::True]);
    subtract(&simplified, &always)
}

/// The predicates from `from` on that are not assumed, behind `found`.
pub open spec fn not_assumed(
    predicates: Seq<PredicateV>,
    assumptions: AssumptionsV,
    found: Seq<PredicateV>,
    from: int,
) -> Seq<PredicateV>
    decreases predicates.len() - from,
{
    if from >= predicates.len() {
        found
    } else if assumed(assumptions, predicates[from]) {
        not_assumed(predicates, assumptions, found, from + 1)
    } else {
        not_assumed(predicates, assumptions, found.push(predicates[from]), from + 1)
    }
}

fn drop_assumed<'a>(predicates: Vec<Predicate>, assumptions: &Assumptions<'a>) -> (result: Vec<
    Predicate,
>)
    requires
        assumptions.conjuncts.well_formed(),
    ensures
        deep(result@) == not_assumed(deep(predicates@), assumptions@, Seq::empty(), 0),
{
    let mut result: Vec<Predicate> = Vec::new();
    let mut i: usize = 0;
    while i < predicates.len()
        invariant
            i <= predicates.len(),
            assumptions.conjuncts.well_formed(),
            not_assumed(deep(predicates@), assumptions@, Seq::empty(), 0) == not_assumed(
                deep(predicates@),
                assumptions@,
                deep(result@),
                i as int,
            ),
        decreases predicates.len() - i,
    {
        assert(deep(predicates@)[i as int] == predicates[i as int]@);
        if !assumptions.contains(&predicates[i]) {
            result.push(predicates[i].duplicate());
        }
        i += 1;
    }
    result
}

/// What the definedness of a simplified term comes down to. The definedness of a part that is
/// assumed anyway is not repeated.
pub open spec fn ceil_expanded<K: Kernel>(
    definition: BackendDefinition<K>,
    simplified: SimplificationV,
    assumptions: AssumptionsV,
) -> PredicateV {
    let expanded = not_assumed(
        definition.kernel.ceil(simplified.term),
        assumptions,
        Seq::empty(),
        0,
    );
    if expanded == seq![PredicateV::Ceil(simplified.term)] {
        with_constraints(simplified.constraints, PredicateV::Ceil(simplified.term))
    } else {
        PredicateV::And(simplified.constraints + expanded)
    }
}

pub(crate) fn expand_ceil<'a, K: Kernel>(
    definition: &BackendDefinition<K>,
    simplified: Simplification,
    assumptions: &Assumptions<'a>,
) -> (result: Predicate)
    requires
        assumptions.conjuncts.well_formed(),
    ensures
        result@ == ceil_expanded(*definition, simplified@, assumptions@),
{
    let mut expanded = drop_assumed(definition.kernel.ceil_term(&simplified.term), assumptions);
    let own = Predicate::ceil(simplified.term.duplicate());
    if expanded.len() == 1 && expanded[0].equals(&own) {
        assert(deep(expanded@) =~= seq![PredicateV::Ceil(simplified@.term)]);
        return with_simplification_constraints(simplified.constraints, own);
    }
    proof {
        if deep(expanded@) == seq![PredicateV::Ceil(simplified@.term)] {
            assert(deep(expanded@)[0] == expanded[0]@);
        }
    }
    let mut constraints = simplified.constraints;
    constraints.append(&mut expanded);
    Predicate::conjunction(constraints)
}

} // verus!
