//! What a search over the execution tree asks for and finds.

use vstd::prelude::*;
use crate::execution_types::{TraceEntry, TraceEntryV};
use crate::kernel::{BuiltinEffect, BuiltinEffectV};
use crate::model::{deep, group_deep, Value};
use crate::pattern::{Pattern, PatternV};
use crate::predicate::{Predicate, PredicateV};
use crate::rewrite_types::{IndeterminateReason, IndeterminateReasonV};
use crate::simplify_types::{SimplificationError, SimplificationErrorV};
use crate::solver::{SmtError, SmtErrorV};
use crate::substitution::{Substitution, SubstitutionV};
use crate::term::{Term, TermV};

verus! {

broadcast use group_deep;

/// Which configurations a search returns.
#[derive(Clone, Copy, Debug, PartialEq, Eq, Structural)]
pub enum SearchType {
    /// Those reached in one rewrite step.
    One,
    /// Those that cannot be rewritten further.
    Final,
    /// All that are reached, with the initial one.
    Star,
    /// All that are reached in at least one rewrite step.
    Plus,
}

/// What a search returns and how far it goes.
#[derive(Clone, Copy, Debug, PartialEq, Eq)]
pub struct SearchOptions {
    pub search_type: SearchType,
    pub max_depth: u64,
    pub max_breadth: Option<usize>,
    pub max_results: Option<usize>,
    pub max_simplification_iterations: usize,
}

impl Default for SearchOptions {
    fn default() -> (options: Self)
        ensures
            options.search_type == SearchType::Final,
            options.max_depth == u64::MAX,
            options.max_breadth is None,
            options.max_results is None,
            options.max_simplification_iterations == 100,
    {
        SearchOptions {
            search_type: SearchType::Final,
            max_depth: u64::MAX,
            max_breadth: None,
            max_results: None,
            max_simplification_iterations: 100,
        }
    }
}

/// A configuration that a search reached.
#[derive(Debug, PartialEq, Eq)]
pub struct SearchState {
    pub pattern: Pattern,
    pub depth: u64,
    /// A path to the pattern. Where several lead to it, any of them.
    pub trace: Vec<TraceEntry>,
}

/// The view of [`SearchState`].
pub struct SearchStateV {
    pub pattern: PatternV,
    pub depth: u64,
    pub trace: Seq<TraceEntryV>,
}

impl View for SearchState {
    type V = SearchStateV;

    open spec fn view(&self) -> SearchStateV {
        SearchStateV {
            pattern: self.pattern@,
            depth: self.depth,
            trace: deep(self.trace@),
        }
    }
}

impl DeepView for SearchState {
    type V = SearchStateV;

    open spec fn deep_view(&self) -> SearchStateV {
        self@
    }
}

impl Value for SearchState {
    fn duplicate(&self) -> (copy: Self) {
        SearchState {
            pattern: self.pattern.duplicate(),
            depth: self.depth,
            trace: self.trace.duplicate(),
        }
    }

    fn equals(&self, other: &Self) -> (same: bool) {
        self.pattern.equals(&other.pattern)
            && self.depth == other.depth
            && self.trace.equals(&other.trace)
    }
}

/// Why a search may miss configurations.
#[allow(inconsistent_fields)]
#[derive(Debug, PartialEq, Eq)]
pub enum IncompleteSearch {
    ResultBound,
    DepthBound(SearchState),
    BreadthBound(Vec<SearchState>),
    Indeterminate { state: SearchState, reason: IndeterminateReason },
    Cancelled(SearchState),
    Simplification { state: SearchState, error: SimplificationError },
    Match { state: SearchState, substitution: Substitution, remainder: Vec<(Term, Term)> },
    Smt { state: SearchState, error: SmtError },
}

/// The view of [`IncompleteSearch`].
#[allow(inconsistent_fields)]
pub enum IncompleteSearchV {
    ResultBound,
    DepthBound(SearchStateV),
    BreadthBound(Seq<SearchStateV>),
    Indeterminate { state: SearchStateV, reason: IndeterminateReasonV },
    Cancelled(SearchStateV),
    Simplification { state: SearchStateV, error: SimplificationErrorV },
    Match { state: SearchStateV, substitution: SubstitutionV, remainder: Seq<(TermV, TermV)> },
    Smt { state: SearchStateV, error: SmtErrorV },
}

impl View for IncompleteSearch {
    type V = IncompleteSearchV;

    open spec fn view(&self) -> IncompleteSearchV {
        match self {
            IncompleteSearch::ResultBound => IncompleteSearchV::ResultBound,
            IncompleteSearch::DepthBound(first) => IncompleteSearchV::DepthBound(first@),
            IncompleteSearch::BreadthBound(first) => IncompleteSearchV::BreadthBound(deep(first@)),
            IncompleteSearch::Indeterminate { state, reason } => IncompleteSearchV::Indeterminate {
                state: state@,
                reason: reason@,
            },
            IncompleteSearch::Cancelled(first) => IncompleteSearchV::Cancelled(first@),
            IncompleteSearch::Simplification { state, error } => IncompleteSearchV::Simplification {
                state: state@,
                error: error@,
            },
            IncompleteSearch::Match { state, substitution, remainder } => IncompleteSearchV::Match {
                state: state@,
                substitution: substitution@,
                remainder: deep(remainder@),
            },
            IncompleteSearch::Smt { state, error } => IncompleteSearchV::Smt {
                state: state@,
                error: error@,
            },
        }
    }
}

impl DeepView for IncompleteSearch {
    type V = IncompleteSearchV;

    open spec fn deep_view(&self) -> IncompleteSearchV {
        self@
    }
}

impl Value for IncompleteSearch {
    fn duplicate(&self) -> (copy: Self) {
        match self {
            IncompleteSearch::ResultBound => IncompleteSearch::ResultBound,
            IncompleteSearch::DepthBound(first) => IncompleteSearch::DepthBound(first.duplicate()),
            IncompleteSearch::BreadthBound(first) => IncompleteSearch::BreadthBound(
                first.duplicate(),
            ),
            IncompleteSearch::Indeterminate { state, reason } => IncompleteSearch::Indeterminate {
                state: state.duplicate(),
                reason: reason.duplicate(),
            },
            IncompleteSearch::Cancelled(first) => IncompleteSearch::Cancelled(first.duplicate()),
            IncompleteSearch::Simplification { state, error } => IncompleteSearch::Simplification {
                state: state.duplicate(),
                error: error.duplicate(),
            },
            IncompleteSearch::Match { state, substitution, remainder } => IncompleteSearch::Match {
                state: state.duplicate(),
                substitution: substitution.duplicate(),
                remainder: remainder.duplicate(),
            },
            IncompleteSearch::Smt { state, error } => IncompleteSearch::Smt {
                state: state.duplicate(),
                error: error.duplicate(),
            },
        }
    }

    fn equals(&self, other: &Self) -> (same: bool) {
        match (self, other) {
            (IncompleteSearch::ResultBound, IncompleteSearch::ResultBound) => true,
            (IncompleteSearch::DepthBound(first), IncompleteSearch::DepthBound(other_first)) => first.equals(
                other_first,
            ),
            (IncompleteSearch::BreadthBound(first), IncompleteSearch::BreadthBound(other_first)) => first.equals(
                other_first,
            ),
            (
                IncompleteSearch::Indeterminate { state, reason },
                IncompleteSearch::Indeterminate { state: other_state, reason: other_reason },
            ) => state.equals(other_state) && reason.equals(other_reason),
            (
                IncompleteSearch::Cancelled(first),
                IncompleteSearch::Cancelled(other_first),
            ) => first.equals(other_first),
            (
                IncompleteSearch::Simplification { state, error },
                IncompleteSearch::Simplification { state: other_state, error: other_error },
            ) => state.equals(other_state) && error.equals(other_error),
            (
                IncompleteSearch::Match { state, substitution, remainder },
                IncompleteSearch::Match {
                    state: other_state,
                    substitution: other_substitution,
                    remainder: other_remainder,
                },
            ) => state.equals(other_state)
                && substitution.equals(other_substitution)
                && remainder.equals(other_remainder),
            (
                IncompleteSearch::Smt { state, error },
                IncompleteSearch::Smt { state: other_state, error: other_error },
            ) => state.equals(other_state) && error.equals(other_error),
            _ => false,
        }
    }
}

/// What a search finds.
#[derive(Debug, PartialEq, Eq)]
pub struct SearchResult {
    pub states: Vec<SearchState>,
    pub effects: Vec<BuiltinEffect>,
    pub incomplete: Vec<IncompleteSearch>,
}

/// The view of [`SearchResult`].
pub struct SearchResultV {
    pub states: Seq<SearchStateV>,
    pub effects: Seq<BuiltinEffectV>,
    pub incomplete: Seq<IncompleteSearchV>,
}

impl View for SearchResult {
    type V = SearchResultV;

    open spec fn view(&self) -> SearchResultV {
        SearchResultV {
            states: deep(self.states@),
            effects: deep(self.effects@),
            incomplete: deep(self.incomplete@),
        }
    }
}

impl DeepView for SearchResult {
    type V = SearchResultV;

    open spec fn deep_view(&self) -> SearchResultV {
        self@
    }
}

impl Value for SearchResult {
    fn duplicate(&self) -> (copy: Self) {
        SearchResult {
            states: self.states.duplicate(),
            effects: self.effects.duplicate(),
            incomplete: self.incomplete.duplicate(),
        }
    }

    fn equals(&self, other: &Self) -> (same: bool) {
        self.states.equals(&other.states)
            && self.effects.equals(&other.effects)
            && self.incomplete.equals(&other.incomplete)
    }
}

/// A configuration that is an instance of a pattern.
#[derive(Debug, PartialEq, Eq)]
pub struct SearchMatch {
    pub substitution: Substitution,
    pub constraints: Vec<Predicate>,
    pub state: SearchState,
}

/// The view of [`SearchMatch`].
pub struct SearchMatchV {
    pub substitution: SubstitutionV,
    pub constraints: Seq<PredicateV>,
    pub state: SearchStateV,
}

impl View for SearchMatch {
    type V = SearchMatchV;

    open spec fn view(&self) -> SearchMatchV {
        SearchMatchV {
            substitution: self.substitution@,
            constraints: deep(self.constraints@),
            state: self.state@,
        }
    }
}

impl DeepView for SearchMatch {
    type V = SearchMatchV;

    open spec fn deep_view(&self) -> SearchMatchV {
        self@
    }
}

impl Value for SearchMatch {
    fn duplicate(&self) -> (copy: Self) {
        SearchMatch {
            substitution: self.substitution.duplicate(),
            constraints: self.constraints.duplicate(),
            state: self.state.duplicate(),
        }
    }

    fn equals(&self, other: &Self) -> (same: bool) {
        self.substitution.equals(&other.substitution)
            && self.constraints.equals(&other.constraints)
            && self.state.equals(&other.state)
    }
}

/// The condition under which a subject is an instance of a pattern.
#[derive(Debug, PartialEq, Eq)]
pub struct PatternMatch {
    pub substitution: Substitution,
    pub constraints: Vec<Predicate>,
}

/// The view of [`PatternMatch`].
pub struct PatternMatchV {
    pub substitution: SubstitutionV,
    pub constraints: Seq<PredicateV>,
}

impl View for PatternMatch {
    type V = PatternMatchV;

    open spec fn view(&self) -> PatternMatchV {
        PatternMatchV {
            substitution: self.substitution@,
            constraints: deep(self.constraints@),
        }
    }
}

impl DeepView for PatternMatch {
    type V = PatternMatchV;

    open spec fn deep_view(&self) -> PatternMatchV {
        self@
    }
}

impl Value for PatternMatch {
    fn duplicate(&self) -> (copy: Self) {
        PatternMatch {
            substitution: self.substitution.duplicate(),
            constraints: self.constraints.duplicate(),
        }
    }

    fn equals(&self, other: &Self) -> (same: bool) {
        self.substitution.equals(&other.substitution)
            && self.constraints.equals(&other.constraints)
    }
}

/// Why it is not known whether a subject is an instance of a pattern.
#[derive(Debug, PartialEq, Eq)]
pub enum PatternMatchError {
    Indeterminate { substitution: Substitution, remainder: Vec<(Term, Term)> },
    Simplification(SimplificationError),
    Smt(SmtError),
}

/// The view of [`PatternMatchError`].
pub enum PatternMatchErrorV {
    Indeterminate { substitution: SubstitutionV, remainder: Seq<(TermV, TermV)> },
    Simplification(SimplificationErrorV),
    Smt(SmtErrorV),
}

impl View for PatternMatchError {
    type V = PatternMatchErrorV;

    open spec fn view(&self) -> PatternMatchErrorV {
        match self {
            PatternMatchError::Indeterminate {
                substitution,
                remainder,
            } => PatternMatchErrorV::Indeterminate {
                substitution: substitution@,
                remainder: deep(remainder@),
            },
            PatternMatchError::Simplification(first) => PatternMatchErrorV::Simplification(first@),
            PatternMatchError::Smt(first) => PatternMatchErrorV::Smt(first@),
        }
    }
}

impl DeepView for PatternMatchError {
    type V = PatternMatchErrorV;

    open spec fn deep_view(&self) -> PatternMatchErrorV {
        self@
    }
}

impl Value for PatternMatchError {
    fn duplicate(&self) -> (copy: Self) {
        match self {
            PatternMatchError::Indeterminate {
                substitution,
                remainder,
            } => PatternMatchError::Indeterminate {
                substitution: substitution.duplicate(),
                remainder: remainder.duplicate(),
            },
            PatternMatchError::Simplification(first) => PatternMatchError::Simplification(
                first.duplicate(),
            ),
            PatternMatchError::Smt(first) => PatternMatchError::Smt(first.duplicate()),
        }
    }

    fn equals(&self, other: &Self) -> (same: bool) {
        match (self, other) {
            (
                PatternMatchError::Indeterminate { substitution, remainder },
                PatternMatchError::Indeterminate {
                    substitution: other_substitution,
                    remainder: other_remainder,
                },
            ) => substitution.equals(other_substitution) && remainder.equals(other_remainder),
            (
                PatternMatchError::Simplification(first),
                PatternMatchError::Simplification(other_first),
            ) => first.equals(other_first),
            (PatternMatchError::Smt(first), PatternMatchError::Smt(other_first)) => first.equals(
                other_first,
            ),
            _ => false,
        }
    }
}

/// What a search for instances of a pattern finds.
#[derive(Debug, PartialEq, Eq)]
pub struct PatternSearchResult {
    pub matches: Vec<SearchMatch>,
    pub effects: Vec<BuiltinEffect>,
    pub incomplete: Vec<IncompleteSearch>,
}

/// The view of [`PatternSearchResult`].
pub struct PatternSearchResultV {
    pub matches: Seq<SearchMatchV>,
    pub effects: Seq<BuiltinEffectV>,
    pub incomplete: Seq<IncompleteSearchV>,
}

impl View for PatternSearchResult {
    type V = PatternSearchResultV;

    open spec fn view(&self) -> PatternSearchResultV {
        PatternSearchResultV {
            matches: deep(self.matches@),
            effects: deep(self.effects@),
            incomplete: deep(self.incomplete@),
        }
    }
}

impl DeepView for PatternSearchResult {
    type V = PatternSearchResultV;

    open spec fn deep_view(&self) -> PatternSearchResultV {
        self@
    }
}

impl Value for PatternSearchResult {
    fn duplicate(&self) -> (copy: Self) {
        PatternSearchResult {
            matches: self.matches.duplicate(),
            effects: self.effects.duplicate(),
            incomplete: self.incomplete.duplicate(),
        }
    }

    fn equals(&self, other: &Self) -> (same: bool) {
        self.matches.equals(&other.matches)
            && self.effects.equals(&other.effects)
            && self.incomplete.equals(&other.incomplete)
    }
}

} // verus!
