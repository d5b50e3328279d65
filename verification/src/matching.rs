//! Sort-aware one-way matching for rewrite rules and equations.

use vstd::prelude::*;
use crate::assoc::assoc;
use crate::construct::{constructor_like, occurs, occurs_in};
use crate::definition::BackendDefinition;
use crate::kernel::Kernel;
use crate::model::{deep, group_deep, Value};
use crate::ops::sort_of;
use crate::sorts::{
    is_subsort, known_overlap, overlap, subsort, SortError, SortErrorV, SortGraph, SortGraphV,
};
use crate::substitution::{
    bound, composed_values, substitute, substitute_values, substituted, Substitution, SubstitutionV,
};
use crate::term::{lemma_term_view, SortV, SymbolType, Term, TermV, Variable, VariableV};

verus! {

broadcast use group_deep;

/// What a match is for.
#[derive(Clone, Copy, Debug, PartialEq, Eq, Structural)]
pub enum MatchMode {
    Rewrite,
    Evaluate,
    Implies,
}

/// Why a subject is no instance of a pattern.
#[derive(Debug, PartialEq, Eq)]
pub enum FailReason {
    DifferentValues(Term, Term),
    DifferentSymbols(Term, Term),
    DifferentSorts(Term, Term),
    VariableRecursion(Variable, Term),
    VariableConflict(Variable, Term, Term),
    KeyNotFound(Term, Term),
    DuplicateKeys(Term, Term),
    SharedVariables(Vec<Variable>),
    Subsorting(SortError),
    ArgumentLengthsDiffer(Term, Term),
}

/// The view of [`FailReason`].
pub enum FailReasonV {
    DifferentValues(TermV, TermV),
    DifferentSymbols(TermV, TermV),
    DifferentSorts(TermV, TermV),
    VariableRecursion(VariableV, TermV),
    VariableConflict(VariableV, TermV, TermV),
    KeyNotFound(TermV, TermV),
    DuplicateKeys(TermV, TermV),
    SharedVariables(Seq<VariableV>),
    Subsorting(SortErrorV),
    ArgumentLengthsDiffer(TermV, TermV),
}

impl View for FailReason {
    type V = FailReasonV;

    open spec fn view(&self) -> FailReasonV {
        match self {
            FailReason::DifferentValues(first, second) => FailReasonV::DifferentValues(
                first@,
                second@,
            ),
            FailReason::DifferentSymbols(first, second) => FailReasonV::DifferentSymbols(
                first@,
                second@,
            ),
            FailReason::DifferentSorts(first, second) => FailReasonV::DifferentSorts(
                first@,
                second@,
            ),
            FailReason::VariableRecursion(first, second) => FailReasonV::VariableRecursion(
                first@,
                second@,
            ),
            FailReason::VariableConflict(first, second, third) => FailReasonV::VariableConflict(
                first@,
                second@,
                third@,
            ),
            FailReason::KeyNotFound(first, second) => FailReasonV::KeyNotFound(first@, second@),
            FailReason::DuplicateKeys(first, second) => FailReasonV::DuplicateKeys(first@, second@),
            FailReason::SharedVariables(first) => FailReasonV::SharedVariables(deep(first@)),
            FailReason::Subsorting(first) => FailReasonV::Subsorting(first@),
            FailReason::ArgumentLengthsDiffer(first, second) => FailReasonV::ArgumentLengthsDiffer(
                first@,
                second@,
            ),
        }
    }
}

impl DeepView for FailReason {
    type V = FailReasonV;

    open spec fn deep_view(&self) -> FailReasonV {
        self@
    }
}

impl Value for FailReason {
    fn duplicate(&self) -> (copy: Self) {
        match self {
            FailReason::DifferentValues(first, second) => FailReason::DifferentValues(
                first.duplicate(),
                second.duplicate(),
            ),
            FailReason::DifferentSymbols(first, second) => FailReason::DifferentSymbols(
                first.duplicate(),
                second.duplicate(),
            ),
            FailReason::DifferentSorts(first, second) => FailReason::DifferentSorts(
                first.duplicate(),
                second.duplicate(),
            ),
            FailReason::VariableRecursion(first, second) => FailReason::VariableRecursion(
                first.duplicate(),
                second.duplicate(),
            ),
            FailReason::VariableConflict(first, second, third) => FailReason::VariableConflict(
                first.duplicate(),
                second.duplicate(),
                third.duplicate(),
            ),
            FailReason::KeyNotFound(first, second) => FailReason::KeyNotFound(
                first.duplicate(),
                second.duplicate(),
            ),
            FailReason::DuplicateKeys(first, second) => FailReason::DuplicateKeys(
                first.duplicate(),
                second.duplicate(),
            ),
            FailReason::SharedVariables(first) => FailReason::SharedVariables(first.duplicate()),
            FailReason::Subsorting(first) => FailReason::Subsorting(first.duplicate()),
            FailReason::ArgumentLengthsDiffer(first, second) => FailReason::ArgumentLengthsDiffer(
                first.duplicate(),
                second.duplicate(),
            ),
        }
    }

    fn equals(&self, other: &Self) -> (same: bool) {
        match (self, other) {
            (
                FailReason::DifferentValues(first, second),
                FailReason::DifferentValues(other_first, other_second),
            ) => first.equals(other_first) && second.equals(other_second),
            (
                FailReason::DifferentSymbols(first, second),
                FailReason::DifferentSymbols(other_first, other_second),
            ) => first.equals(other_first) && second.equals(other_second),
            (
                FailReason::DifferentSorts(first, second),
                FailReason::DifferentSorts(other_first, other_second),
            ) => first.equals(other_first) && second.equals(other_second),
            (
                FailReason::VariableRecursion(first, second),
                FailReason::VariableRecursion(other_first, other_second),
            ) => first.equals(other_first) && second.equals(other_second),
            (
                FailReason::VariableConflict(first, second, third),
                FailReason::VariableConflict(other_first, other_second, other_third),
            ) => first.equals(other_first) && second.equals(other_second) && third.equals(other_third),
            (
                FailReason::KeyNotFound(first, second),
                FailReason::KeyNotFound(other_first, other_second),
            ) => first.equals(other_first) && second.equals(other_second),
            (
                FailReason::DuplicateKeys(first, second),
                FailReason::DuplicateKeys(other_first, other_second),
            ) => first.equals(other_first) && second.equals(other_second),
            (
                FailReason::SharedVariables(first),
                FailReason::SharedVariables(other_first),
            ) => first.equals(other_first),
            (FailReason::Subsorting(first), FailReason::Subsorting(other_first)) => first.equals(
                other_first,
            ),
            (
                FailReason::ArgumentLengthsDiffer(first, second),
                FailReason::ArgumentLengthsDiffer(other_first, other_second),
            ) => first.equals(other_first) && second.equals(other_second),
            _ => false,
        }
    }
}

/// The outcome of a match: a substitution under which the pattern is the subject, the reason why
/// there is none, or a substitution and the pairs that it leaves open.
#[derive(Debug, PartialEq, Eq)]
pub enum MatchResult {
    Success(Substitution),
    Failed(FailReason),
    Indeterminate { substitution: Substitution, remainder: Vec<(Term, Term)> },
}

/// The view of [`MatchResult`].
pub enum MatchResultV {
    Success(SubstitutionV),
    Failed(FailReasonV),
    Indeterminate { substitution: SubstitutionV, remainder: Seq<(TermV, TermV)> },
}

impl View for MatchResult {
    type V = MatchResultV;

    open spec fn view(&self) -> MatchResultV {
        match self {
            MatchResult::Success(first) => MatchResultV::Success(first@),
            MatchResult::Failed(first) => MatchResultV::Failed(first@),
            MatchResult::Indeterminate { substitution, remainder } => MatchResultV::Indeterminate {
                substitution: substitution@,
                remainder: deep(remainder@),
            },
        }
    }
}

impl DeepView for MatchResult {
    type V = MatchResultV;

    open spec fn deep_view(&self) -> MatchResultV {
        self@
    }
}

impl Value for MatchResult {
    fn duplicate(&self) -> (copy: Self) {
        match self {
            MatchResult::Success(first) => MatchResult::Success(first.duplicate()),
            MatchResult::Failed(first) => MatchResult::Failed(first.duplicate()),
            MatchResult::Indeterminate { substitution, remainder } => MatchResult::Indeterminate {
                substitution: substitution.duplicate(),
                remainder: remainder.duplicate(),
            },
        }
    }

    fn equals(&self, other: &Self) -> (same: bool) {
        match (self, other) {
            (MatchResult::Success(first), MatchResult::Success(other_first)) => first.equals(
                other_first,
            ),
            (MatchResult::Failed(first), MatchResult::Failed(other_first)) => first.equals(
                other_first,
            ),
            (
                MatchResult::Indeterminate { substitution, remainder },
                MatchResult::Indeterminate {
                    substitution: other_substitution,
                    remainder: other_remainder,
                },
            ) => substitution.equals(other_substitution) && remainder.equals(other_remainder),
            _ => false,
        }
    }
}

/// How far a match has come.
#[derive(Debug, PartialEq, Eq)]
pub struct Progress {
    pub substitution: Substitution,
    /// Pairs to be matched.
    pub queue: Vec<(Term, Term)>,
    /// Pairs of maps, to be matched after all others.
    pub map_queue: Vec<(Term, Term)>,
    /// Pairs that are left open.
    pub indeterminate: Vec<(Term, Term)>,
}

/// The view of [`Progress`].
pub struct ProgressV {
    pub substitution: SubstitutionV,
    pub queue: Seq<(TermV, TermV)>,
    pub map_queue: Seq<(TermV, TermV)>,
    pub indeterminate: Seq<(TermV, TermV)>,
}

impl View for Progress {
    type V = ProgressV;

    open spec fn view(&self) -> ProgressV {
        ProgressV {
            substitution: self.substitution@,
            queue: deep(self.queue@),
            map_queue: deep(self.map_queue@),
            indeterminate: deep(self.indeterminate@),
        }
    }
}

impl DeepView for Progress {
    type V = ProgressV;

    open spec fn deep_view(&self) -> ProgressV {
        self@
    }
}

impl Value for Progress {
    fn duplicate(&self) -> (copy: Self) {
        Progress {
            substitution: self.substitution.duplicate(),
            queue: self.queue.duplicate(),
            map_queue: self.map_queue.duplicate(),
            indeterminate: self.indeterminate.duplicate(),
        }
    }

    fn equals(&self, other: &Self) -> (same: bool) {
        self.substitution.equals(&other.substitution)
            && self.queue.equals(&other.queue)
            && self.map_queue.equals(&other.map_queue)
            && self.indeterminate.equals(&other.indeterminate)
    }
}

/// What two injections being equal comes down to.
#[derive(Debug, PartialEq, Eq)]
pub enum InjectionEquality {
    Direct(Term, Term),
    Split(Term, Term),
    Distinct,
    Unknown,
}

/// The view of [`InjectionEquality`].
pub enum InjectionEqualityV {
    Direct(TermV, TermV),
    Split(TermV, TermV),
    Distinct,
    Unknown,
}

impl View for InjectionEquality {
    type V = InjectionEqualityV;

    open spec fn view(&self) -> InjectionEqualityV {
        match self {
            InjectionEquality::Direct(first, second) => InjectionEqualityV::Direct(first@, second@),
            InjectionEquality::Split(first, second) => InjectionEqualityV::Split(first@, second@),
            InjectionEquality::Distinct => InjectionEqualityV::Distinct,
            InjectionEquality::Unknown => InjectionEqualityV::Unknown,
        }
    }
}

impl DeepView for InjectionEquality {
    type V = InjectionEqualityV;

    open spec fn deep_view(&self) -> InjectionEqualityV {
        self@
    }
}

impl Value for InjectionEquality {
    fn duplicate(&self) -> (copy: Self) {
        match self {
            InjectionEquality::Direct(first, second) => InjectionEquality::Direct(
                first.duplicate(),
                second.duplicate(),
            ),
            InjectionEquality::Split(first, second) => InjectionEquality::Split(
                first.duplicate(),
                second.duplicate(),
            ),
            InjectionEquality::Distinct => InjectionEquality::Distinct,
            InjectionEquality::Unknown => InjectionEquality::Unknown,
        }
    }

    fn equals(&self, other: &Self) -> (same: bool) {
        match (self, other) {
            (
                InjectionEquality::Direct(first, second),
                InjectionEquality::Direct(other_first, other_second),
            ) => first.equals(other_first) && second.equals(other_second),
            (
                InjectionEquality::Split(first, second),
                InjectionEquality::Split(other_first, other_second),
            ) => first.equals(other_first) && second.equals(other_second),
            (InjectionEquality::Distinct, InjectionEquality::Distinct) => true,
            (InjectionEquality::Unknown, InjectionEquality::Unknown) => true,
            _ => false,
        }
    }
}

/// The items by which one of two sequences is longer.
#[derive(Debug, PartialEq, Eq)]
pub enum PairRemainder {
    Left(Vec<Term>),
    Right(Vec<Term>),
}

/// The view of [`PairRemainder`].
pub enum PairRemainderV {
    Left(Seq<TermV>),
    Right(Seq<TermV>),
}

impl View for PairRemainder {
    type V = PairRemainderV;

    open spec fn view(&self) -> PairRemainderV {
        match self {
            PairRemainder::Left(first) => PairRemainderV::Left(deep(first@)),
            PairRemainder::Right(first) => PairRemainderV::Right(deep(first@)),
        }
    }
}

impl DeepView for PairRemainder {
    type V = PairRemainderV;

    open spec fn deep_view(&self) -> PairRemainderV {
        self@
    }
}

impl Value for PairRemainder {
    fn duplicate(&self) -> (copy: Self) {
        match self {
            PairRemainder::Left(first) => PairRemainder::Left(first.duplicate()),
            PairRemainder::Right(first) => PairRemainder::Right(first.duplicate()),
        }
    }

    fn equals(&self, other: &Self) -> (same: bool) {
        match (self, other) {
            (PairRemainder::Left(first), PairRemainder::Left(other_first)) => first.equals(
                other_first,
            ),
            (PairRemainder::Right(first), PairRemainder::Right(other_first)) => first.equals(
                other_first,
            ),
            _ => false,
        }
    }
}

/// The entries of a map that have no counterpart, by whether their key is constructor-like.
#[derive(Debug, PartialEq, Eq)]
pub struct MapRemainder {
    pub concrete: Vec<(Term, Term)>,
    pub symbolic: Vec<(Term, Term)>,
    pub rest: Option<Term>,
}

/// The view of [`MapRemainder`].
pub struct MapRemainderV {
    pub concrete: Seq<(TermV, TermV)>,
    pub symbolic: Seq<(TermV, TermV)>,
    pub rest: Option<TermV>,
}

impl View for MapRemainder {
    type V = MapRemainderV;

    open spec fn view(&self) -> MapRemainderV {
        MapRemainderV {
            concrete: deep(self.concrete@),
            symbolic: deep(self.symbolic@),
            rest: self.rest.deep_view(),
        }
    }
}

impl DeepView for MapRemainder {
    type V = MapRemainderV;

    open spec fn deep_view(&self) -> MapRemainderV {
        self@
    }
}

impl Value for MapRemainder {
    fn duplicate(&self) -> (copy: Self) {
        MapRemainder {
            concrete: self.concrete.duplicate(),
            symbolic: self.symbolic.duplicate(),
            rest: self.rest.duplicate(),
        }
    }

    fn equals(&self, other: &Self) -> (same: bool) {
        self.concrete.equals(&other.concrete)
            && self.symbolic.equals(&other.symbolic)
            && self.rest.equals(&other.rest)
    }
}

/// What a match may refer to.
pub struct Context<'a, K: Kernel> {
    pub mode: MatchMode,
    pub sorts: &'a SortGraph,
    /// What evaluates builtin functions.
    pub kernel: &'a K,
    pub definition: Option<&'a BackendDefinition<K>>,
}

// ---------------------------------------------------------------------------------------------
// Heads of terms
// ---------------------------------------------------------------------------------------------
/// Whether `term` is an application of a constructor.
pub open spec fn is_constructor_term(term: TermV) -> bool {
    term is Application && term->Application_symbol.attributes.symbol_type is Constructor
}

/// Whether `term` is an application of a function.
pub open spec fn is_function_term(term: TermV) -> bool {
    term is Application && term->Application_symbol.attributes.symbol_type is Function
}

/// Whether `term` is a map, list or set.
pub open spec fn is_internal_collection(term: TermV) -> bool {
    term is KMap || term is KList || term is KSet
}

/// Whether the head of `term` is fixed.
pub open spec fn is_rigid_term(term: TermV) -> bool {
    term is DomainValue || term is Injection || is_internal_collection(term) || is_constructor_term(
        term,
    )
}

/// Whether `term` is constructor-like or has a head that stays under simplification.
pub open spec fn constructor_like_top(term: TermV) -> bool {
    constructor_like(term) || is_constructor_term(term) || term is Injection
        || is_internal_collection(term)
}

/// Whether both terms are collections of the same kind.
pub open spec fn same_category(left: TermV, right: TermV) -> bool {
    (left is KMap && right is KMap) || (left is KList && right is KList) || (left is KSet
        && right is KSet)
}

/// Whether both terms are collections of the same kind and definition.
pub open spec fn same_collection(left: TermV, right: TermV) -> bool {
    match (left, right) {
        (TermV::KMap { definition: a, .. }, TermV::KMap { definition: b, .. }) => a == b,
        (TermV::KList { definition: a, .. }, TermV::KList { definition: b, .. }) => a == b,
        (TermV::KSet { definition: a, .. }, TermV::KSet { definition: b, .. }) => a == b,
        _ => false,
    }
}

/// Whether `term` is an application of the symbol `concat`.
pub open spec fn is_concat(term: TermV, concat: Seq<char>) -> bool {
    term is Application && term->Application_symbol.name == concat
}

pub(crate) fn is_constructor(term: &Term) -> (result: bool)
    ensures
        result == is_constructor_term(term@),
{
    proof {
        lemma_term_view(*term);
    }
    match term {
        Term::Application { symbol, .. } => matches!(
            symbol.attributes.symbol_type,
            SymbolType::Constructor
        ),
        _ => false,
    }
}

pub(crate) fn is_function(term: &Term) -> (result: bool)
    ensures
        result == is_function_term(term@),
{
    proof {
        lemma_term_view(*term);
    }
    match term {
        Term::Application { symbol, .. } => matches!(
            symbol.attributes.symbol_type,
            SymbolType::Function(_)
        ),
        _ => false,
    }
}

pub(crate) fn is_variable(term: &Term) -> (result: bool)
    ensures
        result == term@ is Variable,
{
    proof {
        lemma_term_view(*term);
    }
    matches!(term, Term::Variable(_))
}

pub(crate) fn is_collection(term: &Term) -> (result: bool)
    ensures
        result == is_internal_collection(term@),
{
    proof {
        lemma_term_view(*term);
    }
    matches!(term, Term::KMap { .. } | Term::KList { .. } | Term::KSet { .. })
}

pub(crate) fn is_rigid(term: &Term) -> (result: bool)
    ensures
        result == is_rigid_term(term@),
{
    proof {
        lemma_term_view(*term);
    }
    match term {
        Term::DomainValue { .. } | Term::Injection { .. } => true,
        Term::KMap { .. } | Term::KList { .. } | Term::KSet { .. } => true,
        _ => is_constructor(term),
    }
}

pub(crate) fn has_constructor_like_top(term: &Term) -> (result: bool)
    ensures
        result == constructor_like_top(term@),
{
    proof {
        lemma_term_view(*term);
    }
    match term {
        Term::Injection { .. } => true,
        Term::KMap { .. } | Term::KList { .. } | Term::KSet { .. } => true,
        _ => is_constructor(term) || term.is_constructor_like(),
    }
}

pub(crate) fn same_collection_category(left: &Term, right: &Term) -> (result: bool)
    ensures
        result == same_category(left@, right@),
{
    proof {
        lemma_term_view(*left);
        lemma_term_view(*right);
    }
    match (left, right) {
        (Term::KMap { .. }, Term::KMap { .. }) => true,
        (Term::KList { .. }, Term::KList { .. }) => true,
        (Term::KSet { .. }, Term::KSet { .. }) => true,
        _ => false,
    }
}

pub(crate) fn collection_definition_matches(left: &Term, right: &Term) -> (result: bool)
    ensures
        result == same_collection(left@, right@),
{
    proof {
        lemma_term_view(*left);
        lemma_term_view(*right);
    }
    match (left, right) {
        (Term::KMap { definition: a, .. }, Term::KMap { definition: b, .. }) => a.equals(b),
        (Term::KList { definition: a, .. }, Term::KList { definition: b, .. }) => a.equals(b),
        (Term::KSet { definition: a, .. }, Term::KSet { definition: b, .. }) => a.equals(b),
        _ => false,
    }
}

pub(crate) fn is_opaque_concat(term: &Term, concat: &String) -> (result: bool)
    ensures
        result == is_concat(term@, concat@),
{
    proof {
        lemma_term_view(*term);
    }
    match term {
        Term::Application { symbol, .. } => symbol.name == *concat,
        _ => false,
    }
}

/// Whether `variable` is reached in `term` through constructors and injections only.
pub open spec fn occurs_rigidly(variable: VariableV, term: TermV) -> bool
    decreases term, 1int,
{
    match term {
        TermV::Variable(found) => found == variable,
        TermV::Injection { term, .. } => occurs_rigidly(variable, *term),
        TermV::Application { symbol, arguments, .. } => symbol.attributes.symbol_type is Constructor
            && occurs_rigidly_from(variable, arguments, 0),
        _ => false,
    }
}

/// [`occurs_rigidly`] in one of the terms from `from` on.
pub open spec fn occurs_rigidly_from(variable: VariableV, terms: Seq<TermV>, from: int) -> bool
    decreases terms, terms.len() - from,
{
    if 0 <= from < terms.len() {
        occurs_rigidly(variable, terms[from]) || occurs_rigidly_from(variable, terms, from + 1)
    } else {
        false
    }
}

/// Whether an occurrence of `variable` is reachable through only rigid constructors and sort
/// injections. Such an occurrence makes a finite constructor term cyclic and therefore
/// unsatisfiable. Occurrences below functions or internal collections may disappear during
/// simplification.
pub(crate) fn occurs_below_only_constructors(variable: &Variable, term: &Term) -> (result: bool)
    ensures
        result == occurs_rigidly(variable@, term@),
    decreases term,
{
    proof {
        lemma_term_view(*term);
    }
    match term {
        Term::Variable(found) => found.equals(variable),
        Term::Injection { term, .. } => occurs_below_only_constructors(variable, term),
        Term::Application { symbol, arguments, .. } => {
            matches!(symbol.attributes.symbol_type, SymbolType::Constructor)
                && any_occurs_below_only_constructors(variable, arguments)
        },
        _ => false,
    }
}

fn any_occurs_below_only_constructors(variable: &Variable, terms: &Vec<Term>) -> (result: bool)
    ensures
        result == occurs_rigidly_from(variable@, deep(terms@), 0),
    decreases terms,
{
    let mut i: usize = 0;
    while i < terms.len()
        invariant
            i <= terms.len(),
            occurs_rigidly_from(variable@, deep(terms@), 0) == occurs_rigidly_from(
                variable@,
                deep(terms@),
                i as int,
            ),
        decreases terms.len() - i,
    {
        assert(deep(terms@)[i as int] == terms[i as int]@);
        if occurs_below_only_constructors(variable, &terms[i]) {
            return true;
        }
        i += 1;
    }
    false
}

// ---------------------------------------------------------------------------------------------
// Equality of injections
// ---------------------------------------------------------------------------------------------
/// `term` injected from `source` into `target`.
pub open spec fn injected(source: SortV, target: SortV, term: TermV) -> TermV {
    TermV::Injection { source, target, term: Box::new(term) }
}

/// What the equality of two injections comes down to.
pub open spec fn injection_equality(
    sorts: Option<SortGraphV>,
    left: TermV,
    right: TermV,
) -> Option<InjectionEqualityV> {
    match (left, right) {
        (
            TermV::Injection { source: left_source, target: left_target, term: left_term },
            TermV::Injection { source: right_source, target: right_target, term: right_term },
        ) => Some(
            if left_target != right_target {
                InjectionEqualityV::Distinct
            } else if left_source == right_source {
                InjectionEqualityV::Direct(*left_term, *right_term)
            } else if sorts is Some && is_subsort(sorts->0, right_source, left_source) {
                InjectionEqualityV::Split(
                    *left_term,
                    injected(right_source, left_source, *right_term),
                )
            } else if sorts is Some && is_subsort(sorts->0, left_source, right_source) {
                InjectionEqualityV::Split(
                    injected(left_source, right_source, *left_term),
                    *right_term,
                )
            } else if constructor_like_top(*left_term) || constructor_like_top(*right_term) {
                InjectionEqualityV::Distinct
            } else if sorts is Some && known_overlap(sorts->0, left_source, right_source)
                == Some(false) {
                InjectionEqualityV::Distinct
            } else {
                InjectionEqualityV::Unknown
            },
        ),
        _ => None,
    }
}

/// What the equality of two injections comes down to.
pub(crate) fn match_injection_equality(
    sorts: Option<&SortGraph>,
    left: &Term,
    right: &Term,
) -> (result: Option<InjectionEquality>)
    ensures
        result.deep_view() == injection_equality(sorts.deep_view(), left@, right@),
{
    proof {
        lemma_term_view(*left);
        lemma_term_view(*right);
    }
    match (left, right) {
        (
            Term::Injection { source: left_source, target: left_target, term: left_term },
            Term::Injection { source: right_source, target: right_target, term: right_term },
        ) => {
            if !left_target.equals(right_target) {
                return Some(InjectionEquality::Distinct);
            }
            if left_source.equals(right_source) {
                return Some(
                    InjectionEquality::Direct(left_term.duplicate(), right_term.duplicate()),
                );
            }
            if let Some(sorts) = sorts {
                if sorts.is_subsort(right_source, left_source) {
                    return Some(
                        InjectionEquality::Split(
                            left_term.duplicate(),
                            Term::injection(
                                right_source.duplicate(),
                                left_source.duplicate(),
                                right_term.duplicate(),
                            ),
                        ),
                    );
                }
                if sorts.is_subsort(left_source, right_source) {
                    return Some(
                        InjectionEquality::Split(
                            Term::injection(
                                left_source.duplicate(),
                                right_source.duplicate(),
                                left_term.duplicate(),
                            ),
                            right_term.duplicate(),
                        ),
                    );
                }
            }
            if has_constructor_like_top(left_term) || has_constructor_like_top(right_term) {
                return Some(InjectionEquality::Distinct);
            }
            if let Some(sorts) = sorts {
                if let Some(false) = sorts.known_overlap(left_source, right_source) {
                    return Some(InjectionEquality::Distinct);
                }
            }
            Some(InjectionEquality::Unknown)
        },
        _ => None,
    }
}

// ---------------------------------------------------------------------------------------------
// Progress of a match
// ---------------------------------------------------------------------------------------------
/// `progress` with one more pair to be matched.
pub open spec fn enqueued(progress: ProgressV, pattern: TermV, subject: TermV) -> ProgressV {
    ProgressV { queue: progress.queue.push((pattern, subject)), ..progress }
}

/// `progress` with more pairs to be matched.
pub open spec fn enqueued_all(progress: ProgressV, pairs: Seq<(TermV, TermV)>) -> ProgressV {
    ProgressV { queue: progress.queue + pairs, ..progress }
}

/// `progress` with one more pair that is left open.
pub open spec fn deferred(progress: ProgressV, pattern: TermV, subject: TermV) -> ProgressV {
    ProgressV { indeterminate: progress.indeterminate.push((pattern, subject)), ..progress }
}

/// The outcome of a step: the new progress, or the reason of failure.
pub type Step = Result<ProgressV, FailReasonV>;

/// What a step that worked on `progress` in place says.
pub open spec fn step_view(result: Result<(), FailReason>, progress: Progress) -> Step {
    match result {
        Ok(_) => Ok(progress@),
        Err(reason) => Err(reason@),
    }
}

impl Progress {
    pub(crate) fn enqueue(&mut self, pattern: Term, subject: Term)
        ensures
            final(self)@ == enqueued(old(self)@, pattern@, subject@),
    {
        self.queue.push((pattern, subject));
    }

    pub(crate) fn enqueue_all(&mut self, pairs: Vec<(Term, Term)>)
        ensures
            final(self)@ == enqueued_all(old(self)@, deep(pairs@)),
    {
        let mut pairs = pairs;
        self.queue.append(&mut pairs);
    }

    pub(crate) fn defer(&mut self, pattern: Term, subject: Term)
        ensures
            final(self)@ == deferred(old(self)@, pattern@, subject@),
    {
        self.indeterminate.push((pattern, subject));
    }
}

/// The step that binds `variable` to `term`.
///
/// A variable that is bound keeps its term: an equal term changes nothing, two constructor-like
/// terms are in conflict, and otherwise the two terms are left open as a pair.
pub open spec fn bound_step(
    mode: MatchMode,
    progress: ProgressV,
    variable: VariableV,
    term: TermV,
) -> Step {
    match assoc(progress.substitution, variable) {
        Some(before) => if before == term {
            Ok(progress)
        } else if constructor_like(before) && constructor_like(term) {
            Err(FailReasonV::VariableConflict(variable, before, term))
        } else {
            Ok(deferred(progress, before, term))
        },
        None => {
            let term = substituted(term, progress.substitution);
            if occurs(variable, term) {
                if mode is Implies && !occurs_rigidly(variable, term) {
                    Ok(deferred(progress, TermV::Variable(variable), term))
                } else {
                    Err(FailReasonV::VariableRecursion(variable, term))
                }
            } else {
                Ok(
                    ProgressV {
                        substitution: bound(
                            composed_values(seq![(variable, term)], progress.substitution),
                            variable,
                            term,
                        ),
                        ..progress
                    },
                )
            }
        },
    }
}

fn bind(mode: MatchMode, progress: &mut Progress, variable: &Variable, term: Term) -> (result:
    Result<(), FailReason>)
    ensures
        result is Err ==> final(progress)@ == old(progress)@,
        step_view(result, *final(progress)) == bound_step(mode, old(progress)@, variable@, term@),
{
    if let Some(before) = progress.substitution.get(variable) {
        if before.equals(&term) {
            return Ok(());
        }
        let before = before.duplicate();
        if before.is_constructor_like() && term.is_constructor_like() {
            return Err(FailReason::VariableConflict(variable.duplicate(), before, term));
        }
        progress.defer(before, term);
        return Ok(());
    }
    let term = substitute(&term, &progress.substitution);
    if occurs_in(variable, &term) {
        if matches!(mode, MatchMode::Implies) && !occurs_below_only_constructors(variable, &term) {
            progress.defer(Term::variable(variable.duplicate()), term);
            return Ok(());
        }
        return Err(FailReason::VariableRecursion(variable.duplicate(), term));
    }
    let single = Substitution::singleton(variable.duplicate(), term.duplicate());
    let mut substitution = substitute_values(&single, &progress.substitution);
    substitution.insert(variable.duplicate(), term);
    progress.substitution = substitution;
    Ok(())
}

/// The step that matches a variable with a subject.
pub open spec fn variable_step(
    mode: MatchMode,
    sorts: SortGraphV,
    progress: ProgressV,
    variable: VariableV,
    subject: TermV,
) -> Step {
    let pattern = TermV::Variable(variable);
    let subject_sort = sort_of(subject);
    if subject is Variable && variable.name == subject->Variable_0.name && variable.sort
        != subject->Variable_0.sort {
        Err(FailReasonV::VariableConflict(variable, pattern, subject))
    } else {
        match subsort(sorts, subject_sort, variable.sort) {
            Ok(true) => bound_step(
                mode,
                progress,
                variable,
                if subject_sort == variable.sort {
                    subject
                } else {
                    injected(subject_sort, variable.sort, subject)
                },
            ),
            Ok(false) => if (is_function_term(subject) || subject is Variable) && overlap(
                sorts,
                subject_sort,
                variable.sort,
            ) {
                Ok(deferred(progress, pattern, subject))
            } else {
                Err(FailReasonV::DifferentSorts(pattern, subject))
            },
            Err(error) => Err(FailReasonV::Subsorting(error)),
        }
    }
}

pub(crate) fn match_variable(
    mode: MatchMode,
    sorts: &SortGraph,
    progress: &mut Progress,
    variable: &Variable,
    subject: Term,
) -> (result: Result<(), FailReason>)
    ensures
        result is Err ==> final(progress)@ == old(progress)@,
        step_view(result, *final(progress)) == variable_step(
            mode,
            sorts@,
            old(progress)@,
            variable@,
            subject@,
        ),
{
    proof {
        lemma_term_view(subject);
    }
    if let Term::Variable(other) = &subject {
        if variable.name == other.name && !variable.sort.equals(&other.sort) {
            return Err(
                FailReason::VariableConflict(
                    variable.duplicate(),
                    Term::variable(variable.duplicate()),
                    subject,
                ),
            );
        }
    }
    let subject_sort = subject.sort();
    match sorts.check_subsort(&subject_sort, &variable.sort) {
        Ok(true) => {
            let subject = if subject_sort.equals(&variable.sort) {
                subject
            } else {
                Term::injection(subject_sort, variable.sort.duplicate(), subject)
            };
            bind(mode, progress, variable, subject)
        },
        Ok(false) => {
            if (is_function(&subject) || is_variable(&subject)) && sorts.overlap(
                &subject_sort,
                &variable.sort,
            ) {
                progress.defer(Term::variable(variable.duplicate()), subject);
                Ok(())
            } else {
                Err(FailReason::DifferentSorts(Term::variable(variable.duplicate()), subject))
            }
        },
        Err(error) => Err(FailReason::Subsorting(error)),
    }
}

/// The step that matches injections into the same sort from different sorts.
pub open spec fn injections_step(
    mode: MatchMode,
    sorts: SortGraphV,
    progress: ProgressV,
    pattern: TermV,
    subject: TermV,
) -> Step {
    let pattern_source = pattern->Injection_source;
    let subject_source = subject->Injection_source;
    let pattern_term = *pattern->Injection_term;
    let subject_term = *subject->Injection_term;
    match (subsort(sorts, pattern_source, subject_source), subsort(
        sorts,
        subject_source,
        pattern_source,
    )) {
        (Err(error), _) => Err(FailReasonV::Subsorting(error)),
        (_, Err(error)) => Err(FailReasonV::Subsorting(error)),
        (Ok(pattern_below), Ok(subject_below)) => if !pattern_below && !subject_below {
            if known_overlap(sorts, pattern_source, subject_source) == Some(true)
                && !constructor_like_top(pattern_term) && !constructor_like_top(subject_term) {
                Ok(deferred(progress, pattern, subject))
            } else {
                Err(FailReasonV::DifferentSorts(pattern_term, subject_term))
            }
        } else if pattern_below && (is_function_term(subject_term) || subject_term is Variable) {
            Ok(
                deferred(
                    progress,
                    injected(pattern_source, subject_source, pattern_term),
                    subject_term,
                ),
            )
        } else if subject_below && pattern_term is Variable {
            bound_step(
                mode,
                progress,
                pattern_term->Variable_0,
                injected(subject_source, pattern_source, subject_term),
            )
        } else if subject_below && is_function_term(pattern_term) {
            Ok(
                deferred(
                    progress,
                    pattern_term,
                    injected(subject_source, pattern_source, subject_term),
                ),
            )
        } else {
            Err(FailReasonV::DifferentSorts(pattern, subject))
        },
    }
}

pub(crate) fn match_differing_injections(
    mode: MatchMode,
    sorts: &SortGraph,
    progress: &mut Progress,
    pattern: &Term,
    subject: &Term,
) -> (result: Result<(), FailReason>)
    requires
        pattern is Injection,
        subject is Injection,
    ensures
        result is Err ==> final(progress)@ == old(progress)@,
        step_view(result, *final(progress)) == injections_step(
            mode,
            sorts@,
            old(progress)@,
            pattern@,
            subject@,
        ),
{
    proof {
        lemma_term_view(*pattern);
        lemma_term_view(*subject);
    }
    match (pattern, subject) {
        (
            Term::Injection { source: pattern_source, term: pattern_term, .. },
            Term::Injection { source: subject_source, term: subject_term, .. },
        ) => {
            let pattern_below: bool = match sorts.check_subsort(pattern_source, subject_source) {
                Ok(below) => below,
                Err(error) => {
                    return Err(FailReason::Subsorting(error));
                },
            };
            let subject_below: bool = match sorts.check_subsort(subject_source, pattern_source) {
                Ok(below) => below,
                Err(error) => {
                    return Err(FailReason::Subsorting(error));
                },
            };
            if !pattern_below && !subject_below {
                let overlapping: bool = match sorts.known_overlap(pattern_source, subject_source) {
                    Some(known) => known,
                    None => false,
                };
                if overlapping && !has_constructor_like_top(pattern_term)
                    && !has_constructor_like_top(subject_term) {
                    progress.defer(pattern.duplicate(), subject.duplicate());
                    return Ok(());
                }
                return Err(
                    FailReason::DifferentSorts(pattern_term.duplicate(), subject_term.duplicate()),
                );
            }
            if pattern_below && (is_function(subject_term) || is_variable(subject_term)) {
                progress.defer(
                    Term::injection(
                        pattern_source.duplicate(),
                        subject_source.duplicate(),
                        pattern_term.duplicate(),
                    ),
                    subject_term.duplicate(),
                );
                return Ok(());
            }
            if subject_below {
                let lifted = Term::injection(
                    subject_source.duplicate(),
                    pattern_source.duplicate(),
                    subject_term.duplicate(),
                );
                let inner: &Term = pattern_term;
                proof {
                    lemma_term_view(*inner);
                }
                if let Term::Variable(variable) = inner {
                    return bind(mode, progress, variable, lifted);
                }
                if is_function(pattern_term) {
                    progress.defer(pattern_term.duplicate(), lifted);
                    return Ok(());
                }
            }
            Err(FailReason::DifferentSorts(pattern.duplicate(), subject.duplicate()))
        },
        _ => Err(FailReason::DifferentSorts(pattern.duplicate(), subject.duplicate())),
    }
}

} // verus!
