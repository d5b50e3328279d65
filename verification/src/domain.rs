//! Functional patterns, finite constructor domains, and which bindings a rule accepts.

use vstd::prelude::*;
use crate::assoc::{assoc, assoc_push, assoc_pushed};
use crate::construct::{constructor_like, variables_of};
use crate::definition::{
    constructor_head, constructor_head_of, BackendDefinition, ConstructorHead, ConstructorHeadV,
};
use crate::kernel::Kernel;
use crate::model::{contains, deep, group_deep, Value};
use crate::ops::{children, lemma_child_smaller, sort_of};
use crate::predicate::{lemma_predicate_view, Predicate, PredicateV};
use crate::rule::{Concreteness, ConcretenessV, ConstraintKind, RewriteRule, RewriteRuleV};
use crate::substitution::{Substitution, SubstitutionV};
use crate::term::{
    lemma_sort_view, lemma_term_view, Sort, SortV, SymbolType, Term, TermV, Variable, VariableV,
};
use crate::text::is_text;

verus! {

broadcast use group_deep;

// ---------------------------------------------------------------------------------------------
// Functional patterns
// ---------------------------------------------------------------------------------------------
/// Whether `term` stands for at most one value: it holds no conjunction.
pub open spec fn functional(term: TermV) -> bool
    decreases term, 1int, 0int,
{
    !(term is And) && functional_from(term, 0)
}

/// Whether the children from `from` on are functional.
pub open spec fn functional_from(term: TermV, from: int) -> bool
    decreases term, 0int, children(term).len() - from,
{
    if 0 <= from < children(term).len() {
        proof {
            lemma_child_smaller(term, from);
        }
        functional(children(term)[from]) && functional_from(term, from + 1)
    } else {
        true
    }
}

/// Whether `term` stands for at most one value.
pub(crate) fn is_functional_pattern(term: &Term) -> (result: bool)
    ensures
        result == functional(term@),
    decreases term@,
{
    proof {
        lemma_term_view(*term);
    }
    if matches!(term, Term::And(_, _)) {
        return false;
    }
    let kids: Vec<&Term> = term.children();
    let mut i: usize = 0;
    while i < kids.len()
        invariant
            i <= kids.len(),
            deep(kids@) == children(term@),
            functional(term@) == functional_from(term@, i as int),
        decreases kids.len() - i,
    {
        proof {
            assert(children(term@)[i as int] == kids[i as int]@);
            lemma_child_smaller(term@, i as int);
        }
        if !is_functional_pattern(kids[i]) {
            return false;
        }
        i += 1;
    }
    true
}

/// Whether a function, or a collection, which concatenation builds, occurs in `term`.
pub open spec fn holds_function(term: TermV) -> bool
    decreases term, 1int, 0int,
{
    match term {
        TermV::KMap { .. } | TermV::KList { .. } | TermV::KSet { .. } => true,
        TermV::Application { symbol, .. } => symbol.attributes.symbol_type is Function
            || holds_function_from(term, 0),
        _ => holds_function_from(term, 0),
    }
}

/// Whether a child from `from` on holds a function.
pub open spec fn holds_function_from(term: TermV, from: int) -> bool
    decreases term, 0int, children(term).len() - from,
{
    if 0 <= from < children(term).len() {
        proof {
            lemma_child_smaller(term, from);
        }
        holds_function(children(term)[from]) || holds_function_from(term, from + 1)
    } else {
        false
    }
}

/// Whether a function, or a collection, occurs in `term`.
pub(crate) fn contains_function_pattern(term: &Term) -> (result: bool)
    ensures
        result == holds_function(term@),
    decreases term@,
{
    proof {
        lemma_term_view(*term);
    }
    match term {
        Term::KMap { .. } | Term::KList { .. } | Term::KSet { .. } => {
            return true;
        },
        Term::Application { symbol, .. } => {
            if matches!(symbol.attributes.symbol_type, SymbolType::Function(_)) {
                return true;
            }
        },
        _ => {},
    }
    let kids: Vec<&Term> = term.children();
    let mut i: usize = 0;
    while i < kids.len()
        invariant
            i <= kids.len(),
            deep(kids@) == children(term@),
            holds_function(term@) == holds_function_from(term@, i as int),
        decreases kids.len() - i,
    {
        proof {
            assert(children(term@)[i as int] == kids[i as int]@);
            lemma_child_smaller(term@, i as int);
        }
        if contains_function_pattern(kids[i]) {
            return true;
        }
        i += 1;
    }
    false
}

// ---------------------------------------------------------------------------------------------
// Finite constructor domains
// ---------------------------------------------------------------------------------------------
/// The terms that are known to have none of some constructor heads.
pub type Exclusions = Seq<(TermV, Seq<ConstructorHeadV>)>;

/// Whether no item of `left` is in `right`.
pub open spec fn apart<A>(left: Seq<A>, right: Seq<A>) -> bool {
    forall|i: int| 0 <= i < left.len() ==> !right.contains(#[trigger] left[i])
}

/// Whether every item of `left` is in `right`.
pub open spec fn within<A>(left: Seq<A>, right: Seq<A>) -> bool {
    forall|i: int| 0 <= i < left.len() ==> right.contains(#[trigger] left[i])
}

fn are_apart<T: Value>(left: &Vec<T>, right: &Vec<T>) -> (result: bool)
    ensures
        result == apart(deep(left@), deep(right@)),
{
    let mut i: usize = 0;
    while i < left.len()
        invariant
            i <= left.len(),
            forall|j: int| 0 <= j < i ==> !deep(right@).contains(#[trigger] deep(left@)[j]),
        decreases left.len() - i,
    {
        assert(deep(left@)[i as int] == left[i as int].deep_view());
        if contains(right, &left[i]) {
            return false;
        }
        i += 1;
    }
    true
}

pub(crate) fn is_within<T: Value>(left: &Vec<T>, right: &Vec<T>) -> (result: bool)
    ensures
        result == within(deep(left@), deep(right@)),
{
    let mut i: usize = 0;
    while i < left.len()
        invariant
            i <= left.len(),
            forall|j: int| 0 <= j < i ==> deep(right@).contains(#[trigger] deep(left@)[j]),
        decreases left.len() - i,
    {
        assert(deep(left@)[i as int] == left[i as int].deep_view());
        if !contains(right, &left[i]) {
            return false;
        }
        i += 1;
    }
    true
}

/// The body of nested existential quantifiers.
pub open spec fn unquantified(predicate: PredicateV) -> PredicateV
    decreases predicate,
{
    match predicate {
        PredicateV::Exists(_, inner) => unquantified(*inner),
        _ => predicate,
    }
}

/// The variables of nested existential quantifiers, behind `found`.
pub open spec fn binders(predicate: PredicateV, found: Seq<VariableV>) -> Seq<VariableV>
    decreases predicate,
{
    match predicate {
        PredicateV::Exists(variable, inner) => binders(*inner, found.push(variable)),
        _ => found,
    }
}

/// The constructor head of `constructor`, where the sort of `subject` has finitely many and it is
/// one of them.
pub open spec fn finite_head<K: Kernel>(
    definition: BackendDefinition<K>,
    subject: TermV,
    constructor: TermV,
) -> Option<ConstructorHeadV> {
    match (constructor_head_of(constructor), definition.spec_constructor_heads(sort_of(subject))) {
        (Some(head), Some(heads)) => if heads.contains(head) {
            Some(head)
        } else {
            None
        },
        _ => None,
    }
}

/// The term and the constructor head that the negation of `inner` excludes for it.
pub open spec fn exclusion<K: Kernel>(
    definition: BackendDefinition<K>,
    inner: PredicateV,
) -> Option<(TermV, ConstructorHeadV)> {
    let bound = binders(inner, Seq::empty());
    match unquantified(inner) {
        PredicateV::Equals(left, right) => {
            let (subject, constructor, head) = match finite_head(definition, left, right) {
                Some(head) => (left, right, Some(head)),
                None => (right, left, finite_head(definition, right, left)),
            };
            if head is Some && functional(subject) && apart(variables_of(subject), bound) && within(
                variables_of(constructor),
                bound,
            ) {
                Some((subject, head->0))
            } else {
                None
            }
        },
        _ => None,
    }
}

/// `found` with what `predicate` excludes.
pub open spec fn excluded_by<K: Kernel>(
    definition: BackendDefinition<K>,
    predicate: PredicateV,
    found: Exclusions,
) -> Exclusions
    decreases predicate, 0int,
{
    match predicate {
        PredicateV::And(inner) => all_excluded(definition, inner, found, 0),
        PredicateV::Not(inner) => match exclusion(definition, *inner) {
            Some((subject, head)) => assoc_pushed::<Term, ConstructorHeadV>(found, subject, head),
            None => found,
        },
        _ => found,
    }
}

/// `found` with what the predicates from `from` on exclude.
pub open spec fn all_excluded<K: Kernel>(
    definition: BackendDefinition<K>,
    predicates: Seq<PredicateV>,
    found: Exclusions,
    from: int,
) -> Exclusions
    decreases predicates, predicates.len() - from,
{
    if 0 <= from < predicates.len() {
        all_excluded(
            definition,
            predicates,
            excluded_by(definition, predicates[from], found),
            from + 1,
        )
    } else {
        found
    }
}

/// Whether for one of the terms from `from` on every constructor head is excluded.
pub open spec fn exhausted_from<K: Kernel>(
    definition: BackendDefinition<K>,
    exclusions: Exclusions,
    from: int,
) -> bool
    decreases exclusions.len() - from,
{
    if from >= exclusions.len() {
        false
    } else {
        (match definition.spec_constructor_heads(sort_of(exclusions[from].0)) {
            Some(heads) => within(heads, exclusions[from].1),
            None => false,
        }) || exhausted_from(definition, exclusions, from + 1)
    }
}

/// Whether `predicates` leave a term of a finite constructor domain no constructor.
pub open spec fn violates_domain<K: Kernel>(
    definition: BackendDefinition<K>,
    predicates: Seq<PredicateV>,
) -> bool {
    exhausted_from(definition, all_excluded(definition, predicates, Seq::empty(), 0), 0)
}

fn find_finite_head<K: Kernel>(
    definition: &BackendDefinition<K>,
    subject: &Term,
    constructor: &Term,
) -> (result: Option<ConstructorHead>)
    ensures
        result.deep_view() == finite_head(*definition, subject@, constructor@),
{
    let head = match constructor_head(constructor) {
        Some(head) => head,
        None => {
            return None;
        },
    };
    match definition.finite_constructor_heads(&subject.sort()) {
        Some(heads) => {
            if contains(heads, &head) {
                Some(head)
            } else {
                None
            }
        },
        None => None,
    }
}

/// Take nested existential quantifiers off.
fn strip_quantifiers<'a>(predicate: &'a Predicate, found: &mut Vec<Variable>) -> (result: &'a Predicate)
    ensures
        result@ == unquantified(predicate@),
        deep(final(found)@) == binders(predicate@, deep(old(found)@)),
    decreases predicate,
{
    proof {
        lemma_predicate_view(*predicate);
    }
    match predicate {
        Predicate::Exists(variable, inner) => {
            found.push(variable.duplicate());
            strip_quantifiers(inner, found)
        },
        _ => predicate,
    }
}

fn find_exclusion<K: Kernel>(definition: &BackendDefinition<K>, inner: &Predicate) -> (result:
    Option<(Term, ConstructorHead)>)
    ensures
        result.deep_view() == exclusion(*definition, inner@),
{
    let mut bound: Vec<Variable> = Vec::new();
    let body = strip_quantifiers(inner, &mut bound);
    proof {
        lemma_predicate_view(*body);
    }
    match body {
        Predicate::Equals(left, right) => {
            let first = find_finite_head(definition, left, right);
            let (subject, constructor, head) = match first {
                Some(head) => (left, right, Some(head)),
                None => (right, left, find_finite_head(definition, right, left)),
            };
            match head {
                Some(head) => {
                    if is_functional_pattern(subject) && are_apart(&subject.variables(), &bound)
                        && is_within(&constructor.variables(), &bound) {
                        Some((subject.duplicate(), head))
                    } else {
                        None
                    }
                },
                None => None,
            }
        },
        _ => None,
    }
}

fn collect_constructor_exclusions<K: Kernel>(
    definition: &BackendDefinition<K>,
    predicate: &Predicate,
    found: &mut Vec<(Term, Vec<ConstructorHead>)>,
)
    ensures
        deep(final(found)@) == excluded_by(*definition, predicate@, deep(old(found)@)),
    decreases predicate,
{
    proof {
        lemma_predicate_view(*predicate);
    }
    match predicate {
        Predicate::And(inner) => {
            collect_all_exclusions(definition, inner, found);
        },
        Predicate::Not(inner) => {
            if let Some((subject, head)) = find_exclusion(definition, inner) {
                assoc_push(found, subject, head);
            }
        },
        _ => {},
    }
}

fn collect_all_exclusions<K: Kernel>(
    definition: &BackendDefinition<K>,
    predicates: &Vec<Predicate>,
    found: &mut Vec<(Term, Vec<ConstructorHead>)>,
)
    ensures
        deep(final(found)@) == all_excluded(
            *definition,
            deep(predicates@),
            deep(old(found)@),
            0,
        ),
    decreases predicates,
{
    let mut i: usize = 0;
    while i < predicates.len()
        invariant
            i <= predicates.len(),
            all_excluded(*definition, deep(predicates@), deep(old(found)@), 0) == all_excluded(
                *definition,
                deep(predicates@),
                deep(found@),
                i as int,
            ),
        decreases predicates.len() - i,
    {
        assert(deep(predicates@)[i as int] == predicates[i as int]@);
        collect_constructor_exclusions(definition, &predicates[i], found);
        i += 1;
    }
}

/// Whether constructor exclusions among `predicates` contradict a finite constructor domain.
pub(crate) fn violates_finite_constructor_domain<K: Kernel>(
    definition: &BackendDefinition<K>,
    predicates: &Vec<Predicate>,
) -> (result: bool)
    ensures
        result == violates_domain(*definition, deep(predicates@)),
{
    let mut exclusions: Vec<(Term, Vec<ConstructorHead>)> = Vec::new();
    collect_all_exclusions(definition, predicates, &mut exclusions);
    let mut i: usize = 0;
    while i < exclusions.len()
        invariant
            i <= exclusions.len(),
            violates_domain(*definition, deep(predicates@)) == exhausted_from(
                *definition,
                deep(exclusions@),
                i as int,
            ),
        decreases exclusions.len() - i,
    {
        assert(deep(exclusions@)[i as int] == (
            exclusions[i as int].0@,
            deep(exclusions[i as int].1@),
        ));
        if let Some(heads) = definition.finite_constructor_heads(&exclusions[i].0.sort()) {
            if is_within(heads, &exclusions[i].1) {
                return true;
            }
        }
        i += 1;
    }
    false
}

// ---------------------------------------------------------------------------------------------
// Concrete and symbolic bindings
// ---------------------------------------------------------------------------------------------
/// `name` without `prefix` in front.
pub open spec fn stripped(name: Seq<char>, prefix: Seq<char>) -> Option<Seq<char>> {
    if prefix.len() <= name.len() && name.subrange(0, prefix.len() as int) == prefix {
        Some(name.subrange(prefix.len() as int, name.len() as int))
    } else {
        None
    }
}

/// `name` without `prefix` in front.
pub(crate) fn strip_prefix(name: &String, prefix: &str) -> (result: Option<String>)
    ensures
        result.deep_view() == stripped(name@, prefix@),
{
    let length: usize = prefix.unicode_len();
    let total: usize = name.as_str().unicode_len();
    if length > total {
        return None;
    }
    let head = name.as_str().substring_char(0, length).to_owned();
    if is_text(&head, prefix) {
        Some(name.as_str().substring_char(length, total).to_owned())
    } else {
        None
    }
}

/// The name of a rule's variable in the source: without the mark of a rule or an equation.
pub open spec fn source_name(name: Seq<char>) -> Option<Seq<char>> {
    match stripped(name, "Rule#"@) {
        Some(rest) => Some(rest),
        None => stripped(name, "Eq#"@),
    }
}

/// The name of a sort constructor.
pub open spec fn sort_name_of(sort: SortV) -> Option<Seq<char>> {
    match sort {
        SortV::Application { name, .. } => Some(name),
        SortV::Variable(_) => None,
    }
}

/// Whether `variable` is the one that the source calls `name` and gives the sort `sort`.
pub open spec fn is_listed(variable: VariableV, name: Seq<char>, sort: Seq<char>) -> bool {
    source_name(variable.name) == Some(name) && sort_name_of(variable.sort) == Some(sort)
}

fn sort_name(sort: &Sort) -> (result: Option<&String>)
    ensures
        result.deep_view() == sort_name_of(sort@),
{
    proof {
        lemma_sort_view(*sort);
    }
    match sort {
        Sort::Application { name, .. } => Some(name),
        Sort::Variable(_) => None,
    }
}

fn variable_is_listed(variable: &Variable, name: &String, sort: &String) -> (result: bool)
    ensures
        result == is_listed(variable@, name@, sort@),
{
    let own = match strip_prefix(&variable.name, "Rule#") {
        Some(rest) => Some(rest),
        None => strip_prefix(&variable.name, "Eq#"),
    };
    match (own, sort_name(&variable.sort)) {
        (Some(own), Some(own_sort)) => own == *name && *own_sort == *sort,
        _ => false,
    }
}

/// The first of `variables`, from `from` on, that is listed.
pub open spec fn listed_from(
    variables: Seq<VariableV>,
    name: Seq<char>,
    sort: Seq<char>,
    from: int,
) -> Option<VariableV>
    decreases variables.len() - from,
{
    if from >= variables.len() {
        None
    } else if is_listed(variables[from], name, sort) {
        Some(variables[from])
    } else {
        listed_from(variables, name, sort, from + 1)
    }
}

fn find_listed<'a>(variables: &'a Vec<Variable>, name: &String, sort: &String) -> (result: Option<
    &'a Variable,
>)
    ensures
        result.deep_view() == listed_from(deep(variables@), name@, sort@, 0),
{
    let mut i: usize = 0;
    while i < variables.len()
        invariant
            i <= variables.len(),
            listed_from(deep(variables@), name@, sort@, 0) == listed_from(
                deep(variables@),
                name@,
                sort@,
                i as int,
            ),
        decreases variables.len() - i,
    {
        assert(deep(variables@)[i as int] == variables[i as int]@);
        if variable_is_listed(&variables[i], name, sort) {
            return Some(&variables[i]);
        }
        i += 1;
    }
    None
}

/// Whether the binding of `variable` is of the kind that is asked for.
pub open spec fn satisfies(
    substitution: SubstitutionV,
    variable: VariableV,
    kind: ConstraintKind,
) -> bool {
    match assoc(substitution, variable) {
        Some(term) => constructor_like(term) == (kind is Concrete),
        None => false,
    }
}

fn is_satisfied(substitution: &Substitution, variable: &Variable, kind: ConstraintKind) -> (result:
    bool)
    ensures
        result == satisfies(substitution@, variable@, kind),
{
    match substitution.get(variable) {
        Some(term) => term.is_constructor_like() == matches!(kind, ConstraintKind::Concrete),
        None => false,
    }
}

/// The first of `variables`, from `from` on, whose binding is not of the kind that is asked for.
pub open spec fn unsatisfied_from(
    substitution: SubstitutionV,
    variables: Seq<VariableV>,
    kind: ConstraintKind,
    from: int,
) -> Option<VariableV>
    decreases variables.len() - from,
{
    if from >= variables.len() {
        None
    } else if satisfies(substitution, variables[from], kind) {
        unsatisfied_from(substitution, variables, kind, from + 1)
    } else {
        Some(variables[from])
    }
}

/// The variable of the first constraint, from `from` on, that is not satisfied.
pub open spec fn unlisted_from(
    substitution: SubstitutionV,
    variables: Seq<VariableV>,
    constraints: Seq<((Seq<char>, Seq<char>), ConstraintKind)>,
    from: int,
) -> Option<VariableV>
    decreases constraints.len() - from,
{
    if from >= constraints.len() {
        None
    } else {
        match listed_from(variables, constraints[from].0.0, constraints[from].0.1, 0) {
            Some(variable) => if satisfies(substitution, variable, constraints[from].1) {
                unlisted_from(substitution, variables, constraints, from + 1)
            } else {
                Some(variable)
            },
            None => unlisted_from(substitution, variables, constraints, from + 1),
        }
    }
}

/// The first variable of a rule whose binding breaks the rule's `concrete` and `symbolic`
/// attributes.
pub open spec fn concreteness_violation(
    rule: RewriteRuleV,
    substitution: SubstitutionV,
) -> Option<VariableV> {
    match rule.attributes.concreteness {
        ConcretenessV::Unconstrained => None,
        ConcretenessV::All(kind) => unsatisfied_from(
            substitution,
            variables_of(rule.lhs),
            kind,
            0,
        ),
        ConcretenessV::Listed(constraints) => unlisted_from(
            substitution,
            variables_of(rule.lhs),
            constraints,
            0,
        ),
    }
}

/// Check the `concrete` and `symbolic` attributes, which apply to equations only.
pub(crate) fn check_concreteness(rule: &RewriteRule, substitution: &Substitution) -> (result: Option<
    Variable,
>)
    ensures
        result.deep_view() == concreteness_violation(rule@, substitution@),
{
    match &rule.attributes.concreteness {
        Concreteness::Unconstrained => None,
        Concreteness::All(kind) => {
            let variables = rule.lhs.variables();
            let mut i: usize = 0;
            while i < variables.len()
                invariant
                    i <= variables.len(),
                    concreteness_violation(rule@, substitution@) == unsatisfied_from(
                        substitution@,
                        deep(variables@),
                        *kind,
                        i as int,
                    ),
                decreases variables.len() - i,
            {
                assert(deep(variables@)[i as int] == variables[i as int]@);
                if !is_satisfied(substitution, &variables[i], *kind) {
                    return Some(variables[i].duplicate());
                }
                i += 1;
            }
            None
        },
        Concreteness::Listed(constraints) => {
            let variables = rule.lhs.variables();
            let mut i: usize = 0;
            while i < constraints.len()
                invariant
                    i <= constraints.len(),
                    concreteness_violation(rule@, substitution@) == unlisted_from(
                        substitution@,
                        deep(variables@),
                        deep(constraints@),
                        i as int,
                    ),
                decreases constraints.len() - i,
            {
                assert(deep(constraints@)[i as int] == constraints[i as int].deep_view());
                let kind: ConstraintKind = constraints[i].1;
                if let Some(variable) = find_listed(
                    &variables,
                    &constraints[i].0.0,
                    &constraints[i].0.1,
                ) {
                    if !is_satisfied(substitution, variable, kind) {
                        return Some(variable.duplicate());
                    }
                }
                i += 1;
            }
            None
        },
    }
}

} // verus!
