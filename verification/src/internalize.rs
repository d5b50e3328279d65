//! Terms from the syntax of Kore.

use vstd::prelude::*;
use crate::assoc::{assoc, assoc_get};
use crate::attributes::{AxiomError, AxiomErrorV};
use crate::construct::{list_term, map_term, optional_view, set_term};
use crate::definition::BackendDefinition;
use crate::kernel::{result_view, Kernel};
use crate::kore::{
    lemma_kore_view, KorePattern, KorePatternV, KoreSymbol, KoreSymbolV, KoreVariable,
    KoreVariableV,
};
use crate::match_collections::lemma_optional_view;
use crate::model::{contains, deep, group_deep, Value};
use crate::sorts::SortGraphV;
use crate::term::{
    lemma_sort_view, lemma_term_view, rest_view, CollectionDefinition, CollectionDefinitionV,
    CollectionMetadata, CollectionMetadataV, Sort, SortV, Symbol, SymbolV, Term, TermV, Variable,
    VariableKind, VariableV,
};
use crate::text::is_text;

verus! {

broadcast use {group_deep, lemma_optional_view};

/// Why a pattern is no side of a rule.
#[derive(Debug, PartialEq, Eq)]
pub enum RulePatternError {
    MissingTerm,
    UnsupportedPredicate(&'static str),
    BinderSortMismatch(Variable),
}

/// The view of [`RulePatternError`].
pub enum RulePatternErrorV {
    MissingTerm,
    UnsupportedPredicate(Seq<char>),
    BinderSortMismatch(VariableV),
}

impl View for RulePatternError {
    type V = RulePatternErrorV;

    open spec fn view(&self) -> RulePatternErrorV {
        match self {
            RulePatternError::MissingTerm => RulePatternErrorV::MissingTerm,
            RulePatternError::UnsupportedPredicate(first) => RulePatternErrorV::UnsupportedPredicate(
                first@,
            ),
            RulePatternError::BinderSortMismatch(first) => RulePatternErrorV::BinderSortMismatch(
                first@,
            ),
        }
    }
}

impl DeepView for RulePatternError {
    type V = RulePatternErrorV;

    open spec fn deep_view(&self) -> RulePatternErrorV {
        self@
    }
}

impl Value for RulePatternError {
    fn duplicate(&self) -> (copy: Self) {
        match self {
            RulePatternError::MissingTerm => RulePatternError::MissingTerm,
            RulePatternError::UnsupportedPredicate(first) => RulePatternError::UnsupportedPredicate(
                *first,
            ),
            RulePatternError::BinderSortMismatch(first) => RulePatternError::BinderSortMismatch(
                first.duplicate(),
            ),
        }
    }

    fn equals(&self, other: &Self) -> (same: bool) {
        match (self, other) {
            (RulePatternError::MissingTerm, RulePatternError::MissingTerm) => true,
            (
                RulePatternError::UnsupportedPredicate(first),
                RulePatternError::UnsupportedPredicate(other_first),
            ) => first.equals(other_first),
            (
                RulePatternError::BinderSortMismatch(first),
                RulePatternError::BinderSortMismatch(other_first),
            ) => first.equals(other_first),
            _ => false,
        }
    }
}

/// Why syntax cannot be made part of a definition.
#[derive(Debug, PartialEq, Eq)]
pub enum DefinitionError {
    UnknownModule(String),
    UnknownSort(String),
    UnknownSortVariable(String),
    UnknownSymbol(String),
    /// A symbol with another number of arguments, or of sorts, than it is declared with.
    ArgumentCount { symbol: String, expected: usize, found: usize },
    UnsupportedTerm(&'static str),
    RulePattern(RulePatternError),
    MalformedAxiom(AxiomError),
}

/// The view of [`DefinitionError`].
pub enum DefinitionErrorV {
    UnknownModule(Seq<char>),
    UnknownSort(Seq<char>),
    UnknownSortVariable(Seq<char>),
    UnknownSymbol(Seq<char>),
    ArgumentCount { symbol: Seq<char>, expected: usize, found: usize },
    UnsupportedTerm(Seq<char>),
    RulePattern(RulePatternErrorV),
    MalformedAxiom(AxiomErrorV),
}

impl View for DefinitionError {
    type V = DefinitionErrorV;

    open spec fn view(&self) -> DefinitionErrorV {
        match self {
            DefinitionError::UnknownModule(first) => DefinitionErrorV::UnknownModule(first@),
            DefinitionError::UnknownSort(first) => DefinitionErrorV::UnknownSort(first@),
            DefinitionError::UnknownSortVariable(first) => DefinitionErrorV::UnknownSortVariable(
                first@,
            ),
            DefinitionError::UnknownSymbol(first) => DefinitionErrorV::UnknownSymbol(first@),
            DefinitionError::ArgumentCount {
                symbol,
                expected,
                found,
            } => DefinitionErrorV::ArgumentCount {
                symbol: symbol@,
                expected: *expected,
                found: *found,
            },
            DefinitionError::UnsupportedTerm(first) => DefinitionErrorV::UnsupportedTerm(first@),
            DefinitionError::RulePattern(first) => DefinitionErrorV::RulePattern(first@),
            DefinitionError::MalformedAxiom(first) => DefinitionErrorV::MalformedAxiom(first@),
        }
    }
}

impl DeepView for DefinitionError {
    type V = DefinitionErrorV;

    open spec fn deep_view(&self) -> DefinitionErrorV {
        self@
    }
}

impl Value for DefinitionError {
    fn duplicate(&self) -> (copy: Self) {
        match self {
            DefinitionError::UnknownModule(first) => DefinitionError::UnknownModule(first.clone()),
            DefinitionError::UnknownSort(first) => DefinitionError::UnknownSort(first.clone()),
            DefinitionError::UnknownSortVariable(first) => DefinitionError::UnknownSortVariable(
                first.clone(),
            ),
            DefinitionError::UnknownSymbol(first) => DefinitionError::UnknownSymbol(first.clone()),
            DefinitionError::ArgumentCount {
                symbol,
                expected,
                found,
            } => DefinitionError::ArgumentCount {
                symbol: symbol.clone(),
                expected: *expected,
                found: *found,
            },
            DefinitionError::UnsupportedTerm(first) => DefinitionError::UnsupportedTerm(*first),
            DefinitionError::RulePattern(first) => DefinitionError::RulePattern(first.duplicate()),
            DefinitionError::MalformedAxiom(first) => DefinitionError::MalformedAxiom(
                first.duplicate(),
            ),
        }
    }

    fn equals(&self, other: &Self) -> (same: bool) {
        match (self, other) {
            (
                DefinitionError::UnknownModule(first),
                DefinitionError::UnknownModule(other_first),
            ) => *first == *other_first,
            (
                DefinitionError::UnknownSort(first),
                DefinitionError::UnknownSort(other_first),
            ) => *first == *other_first,
            (
                DefinitionError::UnknownSortVariable(first),
                DefinitionError::UnknownSortVariable(other_first),
            ) => *first == *other_first,
            (
                DefinitionError::UnknownSymbol(first),
                DefinitionError::UnknownSymbol(other_first),
            ) => *first == *other_first,
            (
                DefinitionError::ArgumentCount { symbol, expected, found },
                DefinitionError::ArgumentCount {
                    symbol: other_symbol,
                    expected: other_expected,
                    found: other_found,
                },
            ) => *symbol == *other_symbol && *expected == *other_expected && *found == *other_found,
            (
                DefinitionError::UnsupportedTerm(first),
                DefinitionError::UnsupportedTerm(other_first),
            ) => first.equals(other_first),
            (DefinitionError::RulePattern(first), DefinitionError::RulePattern(other_first)) => first.equals(
                other_first,
            ),
            (
                DefinitionError::MalformedAxiom(first),
                DefinitionError::MalformedAxiom(other_first),
            ) => first.equals(other_first),
            _ => false,
        }
    }
}

// ---------------------------------------------------------------------------------------------
// Sorts
// ---------------------------------------------------------------------------------------------
/// What is wrong with a sort: it holds a variable that is no parameter, or a name that is unknown.
pub open spec fn sort_fault(
    graph: SortGraphV,
    parameters: Seq<Seq<char>>,
    sort: SortV,
) -> Option<DefinitionErrorV>
    decreases sort, 0int, 0int,
{
    match sort {
        SortV::Variable(name) => if parameters.contains(name) {
            None
        } else {
            Some(DefinitionErrorV::UnknownSortVariable(name))
        },
        SortV::Application { name, arguments } => if assoc(graph, name) is None {
            Some(DefinitionErrorV::UnknownSort(name))
        } else {
            sorts_fault(graph, parameters, arguments, 0)
        },
    }
}

/// What is wrong with the first faulty sort from `from` on.
pub open spec fn sorts_fault(
    graph: SortGraphV,
    parameters: Seq<Seq<char>>,
    sorts: Seq<SortV>,
    from: int,
) -> Option<DefinitionErrorV>
    decreases sorts, 1int, sorts.len() - from,
{
    if !(0 <= from < sorts.len()) {
        None
    } else {
        match sort_fault(graph, parameters, sorts[from]) {
            Some(error) => Some(error),
            None => sorts_fault(graph, parameters, sorts, from + 1),
        }
    }
}

fn find_sort_fault<K: Kernel>(
    definition: &BackendDefinition<K>,
    parameters: &Vec<String>,
    sort: &Sort,
) -> (result: Option<DefinitionError>)
    ensures
        result.deep_view() == sort_fault(definition.sort_graph@, deep(parameters@), sort@),
    decreases sort,
{
    proof {
        lemma_sort_view(*sort);
    }
    match sort {
        Sort::Variable(name) => if contains(parameters, name) {
            None
        } else {
            Some(DefinitionError::UnknownSortVariable(name.duplicate()))
        },
        Sort::Application { name, arguments } => {
            if assoc_get(&definition.sort_graph.subsorts, name).is_none() {
                return Some(DefinitionError::UnknownSort(name.duplicate()));
            }
            find_sorts_fault(definition, parameters, arguments)
        },
    }
}

fn find_sorts_fault<K: Kernel>(
    definition: &BackendDefinition<K>,
    parameters: &Vec<String>,
    sorts: &Vec<Sort>,
) -> (result: Option<DefinitionError>)
    ensures
        result.deep_view() == sorts_fault(
            definition.sort_graph@,
            deep(parameters@),
            deep(sorts@),
            0,
        ),
    decreases sorts,
{
    let mut i: usize = 0;
    while i < sorts.len()
        invariant
            i <= sorts.len(),
            sorts_fault(definition.sort_graph@, deep(parameters@), deep(sorts@), 0) == sorts_fault(
                definition.sort_graph@,
                deep(parameters@),
                deep(sorts@),
                i as int,
            ),
        decreases sorts.len() - i,
    {
        assert(deep(sorts@)[i as int] == sorts[i as int]@);
        let fault = find_sort_fault(definition, parameters, &sorts[i]);
        if fault.is_some() {
            return fault;
        }
        i += 1;
    }
    None
}

/// A sort of a definition.
pub open spec fn sort_internalized<K: Kernel>(
    definition: &BackendDefinition<K>,
    sort: SortV,
    parameters: Seq<Seq<char>>,
) -> Result<SortV, DefinitionErrorV> {
    match sort_fault(definition.sort_graph@, parameters, sort) {
        None => Ok(sort),
        Some(error) => Err(error),
    }
}

/// A variable of a definition.
pub open spec fn variable_internalized<K: Kernel>(
    definition: &BackendDefinition<K>,
    variable: KoreVariableV,
    parameters: Seq<Seq<char>>,
) -> Result<VariableV, DefinitionErrorV> {
    match sort_internalized(definition, variable.sort, parameters) {
        Ok(sort) => Ok(VariableV { name: variable.name, sort, kind: VariableKind::Element }),
        Err(error) => Err(error),
    }
}

// ---------------------------------------------------------------------------------------------
// Collections
// ---------------------------------------------------------------------------------------------
/// The entries of a map.
pub open spec fn entries_in(definition: CollectionDefinitionV, term: TermV) -> Seq<(TermV, TermV)> {
    match term {
        TermV::KMap { definition: own, entries, .. } => if own == definition {
            entries
        } else {
            Seq::empty()
        },
        _ => Seq::empty(),
    }
}

/// The elements of a set.
pub open spec fn elements_in(definition: CollectionDefinitionV, term: TermV) -> Seq<TermV> {
    match term {
        TermV::KSet { definition: own, elements, .. } => if own == definition {
            elements
        } else {
            Seq::empty()
        },
        _ => Seq::empty(),
    }
}

/// What is left of a map or set besides its items; of another term, the term.
pub open spec fn rest_in(definition: CollectionDefinitionV, term: TermV) -> Option<Box<TermV>> {
    match term {
        TermV::KMap { definition: own, rest, .. } => if own == definition {
            rest
        } else {
            Some(Box::new(term))
        },
        TermV::KSet { definition: own, rest, .. } => if own == definition {
            rest
        } else {
            Some(Box::new(term))
        },
        _ => Some(Box::new(term)),
    }
}

/// One of two rests, where there are not two.
pub open spec fn one_rest(left: Option<Box<TermV>>, right: Option<Box<TermV>>) -> Option<Box<TermV>> {
    match left {
        Some(rest) => Some(rest),
        None => right,
    }
}

/// The heads, the rest and the tails of a list; of another term, the term as the rest.
pub open spec fn list_parts(definition: CollectionDefinitionV, term: TermV) -> (
    Seq<TermV>,
    Option<Box<TermV>>,
    Seq<TermV>,
) {
    match term {
        TermV::KList { definition: own, heads, rest, tails } => if own == definition {
            (heads, rest, tails)
        } else {
            (Seq::empty(), Some(Box::new(term)), Seq::empty())
        },
        _ => (Seq::empty(), Some(Box::new(term)), Seq::empty()),
    }
}

/// The collection of two, unless both have a rest.
pub open spec fn collections_joined(
    metadata: CollectionMetadataV,
    left: TermV,
    right: TermV,
) -> Option<TermV> {
    match metadata {
        CollectionMetadataV::KMap(definition) => if rest_in(definition, left) is Some && rest_in(
            definition,
            right,
        ) is Some {
            None
        } else {
            Some(
                map_term(
                    definition,
                    entries_in(definition, left) + entries_in(definition, right),
                    one_rest(rest_in(definition, left), rest_in(definition, right)),
                ),
            )
        },
        CollectionMetadataV::KSet(definition) => if rest_in(definition, left) is Some && rest_in(
            definition,
            right,
        ) is Some {
            None
        } else {
            Some(
                set_term(
                    definition,
                    elements_in(definition, left) + elements_in(definition, right),
                    one_rest(rest_in(definition, left), rest_in(definition, right)),
                ),
            )
        },
        CollectionMetadataV::KList(definition) => {
            let (heads, rest, tails) = list_parts(definition, left);
            let (more_heads, more_rest, more_tails) = list_parts(definition, right);
            match (rest, more_rest) {
                (None, _) => Some(
                    list_term(definition, heads + more_heads, more_rest, more_tails),
                ),
                (Some(_), None) => Some(list_term(definition, heads, rest, tails + more_heads)),
                (Some(_), Some(_)) => None,
            }
        },
    }
}

/// The collection that an application of a collection's symbol is; nothing where it is none.
pub open spec fn collection_applied(
    metadata: CollectionMetadataV,
    name: Seq<char>,
    arguments: Seq<TermV>,
) -> Option<TermV> {
    let definition = match metadata {
        CollectionMetadataV::KMap(definition) => definition,
        CollectionMetadataV::KList(definition) => definition,
        CollectionMetadataV::KSet(definition) => definition,
    };
    if name == definition.unit && arguments.len() == 0 {
        Some(
            match metadata {
                CollectionMetadataV::KMap(_) => map_term(definition, Seq::empty(), None),
                CollectionMetadataV::KList(_) => list_term(
                    definition,
                    Seq::empty(),
                    None,
                    Seq::empty(),
                ),
                CollectionMetadataV::KSet(_) => set_term(definition, Seq::empty(), None),
            },
        )
    } else if name == definition.concat && arguments.len() == 2 {
        collections_joined(metadata, arguments[0], arguments[1])
    } else if name == definition.element {
        match metadata {
            CollectionMetadataV::KMap(_) => if arguments.len() == 2 {
                Some(map_term(definition, seq![(arguments[0], arguments[1])], None))
            } else {
                None
            },
            CollectionMetadataV::KList(_) => if arguments.len() == 1 {
                Some(list_term(definition, seq![arguments[0]], None, Seq::empty()))
            } else {
                None
            },
            CollectionMetadataV::KSet(_) => if arguments.len() == 1 {
                Some(set_term(definition, seq![arguments[0]], None))
            } else {
                None
            },
        }
    } else {
        None
    }
}

fn find_entries(definition: &CollectionDefinition, term: &Term) -> (result: Vec<(Term, Term)>)
    ensures
        deep(result@) == entries_in(definition@, term@),
{
    proof {
        lemma_term_view(*term);
    }
    if let Term::KMap { definition: own, entries, .. } = term {
        if own.equals(definition) {
            return entries.duplicate();
        }
    }
    Vec::new()
}

fn find_elements(definition: &CollectionDefinition, term: &Term) -> (result: Vec<Term>)
    ensures
        deep(result@) == elements_in(definition@, term@),
{
    proof {
        lemma_term_view(*term);
    }
    if let Term::KSet { definition: own, elements, .. } = term {
        if own.equals(definition) {
            return elements.duplicate();
        }
    }
    Vec::new()
}

fn find_rest(definition: &CollectionDefinition, term: &Term) -> (result: Option<Term>)
    ensures
        optional_view(result) == rest_in(definition@, term@),
{
    proof {
        lemma_term_view(*term);
    }
    match term {
        Term::KMap { definition: own, rest, .. } => if own.equals(definition) {
            unbox(rest)
        } else {
            Some(term.duplicate())
        },
        Term::KSet { definition: own, rest, .. } => if own.equals(definition) {
            unbox(rest)
        } else {
            Some(term.duplicate())
        },
        _ => Some(term.duplicate()),
    }
}

fn unbox(rest: &Option<Box<Term>>) -> (result: Option<Term>)
    ensures
        optional_view(result) == rest_view(*rest),
{
    match rest {
        Some(inner) => Some((**inner).duplicate()),
        None => None,
    }
}

fn choose_rest(left: Option<Term>, right: Option<Term>) -> (result: Option<Term>)
    ensures
        optional_view(result) == one_rest(optional_view(left), optional_view(right)),
{
    match left {
        Some(rest) => Some(rest),
        None => right,
    }
}

#[verifier::spinoff_prover]
fn join_lists(definition: &CollectionDefinition, left: &Term, right: &Term) -> (result: Option<Term>)
    ensures
        result.deep_view() == collections_joined(
            CollectionMetadataV::KList(definition@),
            left@,
            right@,
        ),
{
    let (heads, rest, tails) = find_list_parts(definition, left);
    let (more_heads, more_rest, more_tails) = find_list_parts(definition, right);
    let mut more_heads = more_heads;
    match rest {
        None => {
            let mut all = heads;
            all.append(&mut more_heads);
            Some(Term::list(definition.duplicate(), all, more_rest, more_tails))
        },
        Some(inner) => match more_rest {
            None => {
                let mut all = tails;
                all.append(&mut more_heads);
                Some(Term::list(definition.duplicate(), heads, Some(inner), all))
            },
            Some(_) => None,
        },
    }
}

fn find_list_parts(definition: &CollectionDefinition, term: &Term) -> (result: (
    Vec<Term>,
    Option<Term>,
    Vec<Term>,
))
    ensures
        (deep(result.0@), optional_view(result.1), deep(result.2@)) == list_parts(
            definition@,
            term@,
        ),
{
    proof {
        lemma_term_view(*term);
    }
    if let Term::KList { definition: own, heads, rest, tails } = term {
        if own.equals(definition) {
            return (heads.duplicate(), unbox(rest), tails.duplicate());
        }
    }
    (Vec::new(), Some(term.duplicate()), Vec::new())
}

#[verifier::spinoff_prover]
fn join_collections(metadata: &CollectionMetadata, left: &Term, right: &Term) -> (result: Option<
    Term,
>)
    ensures
        result.deep_view() == collections_joined(metadata@, left@, right@),
{
    match metadata {
        CollectionMetadata::KMap(definition) => {
            let left_rest = find_rest(definition, left);
            let right_rest = find_rest(definition, right);
            if left_rest.is_some() && right_rest.is_some() {
                return None;
            }
            let mut entries = find_entries(definition, left);
            let mut more = find_entries(definition, right);
            entries.append(&mut more);
            Some(
                Term::map(definition.duplicate(), entries, choose_rest(left_rest, right_rest)),
            )
        },
        CollectionMetadata::KSet(definition) => {
            let left_rest = find_rest(definition, left);
            let right_rest = find_rest(definition, right);
            if left_rest.is_some() && right_rest.is_some() {
                return None;
            }
            let mut elements = find_elements(definition, left);
            let mut more = find_elements(definition, right);
            elements.append(&mut more);
            Some(
                Term::set(definition.duplicate(), elements, choose_rest(left_rest, right_rest)),
            )
        },
        CollectionMetadata::KList(definition) => join_lists(definition, left, right),
    }
}

#[verifier::spinoff_prover]
fn apply_collection(metadata: &CollectionMetadata, name: &String, arguments: &Vec<Term>) -> (result:
    Option<Term>)
    ensures
        result.deep_view() == collection_applied(metadata@, name@, deep(arguments@)),
{
    let definition = match metadata {
        CollectionMetadata::KMap(definition) => definition,
        CollectionMetadata::KList(definition) => definition,
        CollectionMetadata::KSet(definition) => definition,
    };
    if *name == definition.unit && arguments.len() == 0 {
        return Some(
            match metadata {
                CollectionMetadata::KMap(_) => Term::map(definition.duplicate(), Vec::new(), None),
                CollectionMetadata::KList(_) => Term::list(
                    definition.duplicate(),
                    Vec::new(),
                    None,
                    Vec::new(),
                ),
                CollectionMetadata::KSet(_) => Term::set(definition.duplicate(), Vec::new(), None),
            },
        );
    }
    if *name == definition.concat && arguments.len() == 2 {
        assert(deep(arguments@)[0] == arguments[0]@);
        assert(deep(arguments@)[1] == arguments[1]@);
        return join_collections(metadata, &arguments[0], &arguments[1]);
    }
    if *name != definition.element {
        return None;
    }
    match metadata {
        CollectionMetadata::KMap(_) => {
            if arguments.len() != 2 {
                return None;
            }
            assert(deep(arguments@)[0] == arguments[0]@);
            assert(deep(arguments@)[1] == arguments[1]@);
            let mut entries: Vec<(Term, Term)> = Vec::new();
            entries.push((arguments[0].duplicate(), arguments[1].duplicate()));
            assert(deep(entries@) =~= seq![(deep(arguments@)[0], deep(arguments@)[1])]);
            Some(Term::map(definition.duplicate(), entries, None))
        },
        CollectionMetadata::KList(_) => {
            if arguments.len() != 1 {
                return None;
            }
            assert(deep(arguments@) =~= seq![deep(arguments@)[0]]);
            Some(
                Term::list(definition.duplicate(), arguments.duplicate(), None, Vec::new()),
            )
        },
        CollectionMetadata::KSet(_) => {
            if arguments.len() != 1 {
                return None;
            }
            assert(deep(arguments@) =~= seq![deep(arguments@)[0]]);
            Some(Term::set(definition.duplicate(), arguments.duplicate(), None))
        },
    }
}

// ---------------------------------------------------------------------------------------------
// Terms
// ---------------------------------------------------------------------------------------------
/// The term that a symbol makes of its arguments.
pub open spec fn symbol_applied(
    symbol: SymbolV,
    sort_arguments: Seq<SortV>,
    arguments: Seq<TermV>,
) -> TermV {
    let plain = TermV::Application { symbol, sort_arguments, arguments };
    match symbol.attributes.collection {
        None => plain,
        Some(metadata) => match collection_applied(metadata, symbol.name, arguments) {
            Some(term) => term,
            None => plain,
        },
    }
}

fn apply_symbol(symbol: &Symbol, sort_arguments: &Vec<Sort>, arguments: Vec<Term>) -> (term: Term)
    ensures
        term@ == symbol_applied(symbol@, deep(sort_arguments@), deep(arguments@)),
{
    if let Some(metadata) = &symbol.attributes.collection {
        if let Some(term) = apply_collection(metadata, &symbol.name, &arguments) {
            return term;
        }
    }
    Term::application(symbol.duplicate(), sort_arguments.duplicate(), arguments)
}

/// The symbol of an application with `count` arguments.
pub open spec fn symbol_internalized<K: Kernel>(
    definition: &BackendDefinition<K>,
    symbol: KoreSymbolV,
    parameters: Seq<Seq<char>>,
    count: nat,
) -> Result<SymbolV, DefinitionErrorV> {
    match definition.spec_symbol(symbol.name) {
        None => Err(DefinitionErrorV::UnknownSymbol(symbol.name)),
        Some(found) => if found.sort_variables.len() != symbol.sorts.len() {
            Err(
                DefinitionErrorV::ArgumentCount {
                    symbol: symbol.name,
                    expected: found.sort_variables.len() as usize,
                    found: symbol.sorts.len() as usize,
                },
            )
        } else if found.argument_sorts.len() != count {
            Err(
                DefinitionErrorV::ArgumentCount {
                    symbol: symbol.name,
                    expected: found.argument_sorts.len() as usize,
                    found: count as usize,
                },
            )
        } else {
            match sorts_fault(definition.sort_graph@, parameters, symbol.sorts, 0) {
                Some(error) => Err(error),
                None => Ok(found),
            }
        },
    }
}

fn find_symbol<'a, K: Kernel>(
    definition: &'a BackendDefinition<K>,
    symbol: &KoreSymbol,
    parameters: &Vec<String>,
    count: usize,
) -> (result: Result<&'a Symbol, DefinitionError>)
    ensures
        result_view(result) == symbol_internalized(
            definition,
            symbol@,
            deep(parameters@),
            count as nat,
        ),
{
    let found = match definition.symbol(symbol.name.as_str()) {
        Some(found) => found,
        None => {
            return Err(DefinitionError::UnknownSymbol(symbol.name.duplicate()));
        },
    };
    if found.sort_variables.len() != symbol.sorts.len() {
        return Err(
            DefinitionError::ArgumentCount {
                symbol: symbol.name.duplicate(),
                expected: found.sort_variables.len(),
                found: symbol.sorts.len(),
            },
        );
    }
    if found.argument_sorts.len() != count {
        return Err(
            DefinitionError::ArgumentCount {
                symbol: symbol.name.duplicate(),
                expected: found.argument_sorts.len(),
                found: count,
            },
        );
    }
    match find_sorts_fault(definition, parameters, &symbol.sorts) {
        Some(error) => Err(error),
        None => Ok(found),
    }
}

/// The terms from `from` on grouped from the left, behind `term`.
pub open spec fn grouped_left(
    symbol: SymbolV,
    sorts: Seq<SortV>,
    terms: Seq<TermV>,
    term: TermV,
    from: int,
) -> TermV
    decreases terms.len() - from,
{
    if from >= terms.len() {
        term
    } else {
        grouped_left(
            symbol,
            sorts,
            terms,
            symbol_applied(symbol, sorts, seq![term, terms[from]]),
            from + 1,
        )
    }
}

/// The first `count` terms grouped from the right, before `term`.
pub open spec fn grouped_right(
    symbol: SymbolV,
    sorts: Seq<SortV>,
    terms: Seq<TermV>,
    term: TermV,
    count: int,
) -> TermV
    decreases count,
{
    if count <= 0 {
        term
    } else {
        grouped_right(
            symbol,
            sorts,
            terms,
            symbol_applied(symbol, sorts, seq![terms[count - 1], term]),
            count - 1,
        )
    }
}

/// The term with a symbol between two terms and the next, grouped from the left or the right.
pub open spec fn grouped(
    left: bool,
    symbol: SymbolV,
    sorts: Seq<SortV>,
    terms: Seq<TermV>,
) -> TermV {
    if left {
        grouped_left(symbol, sorts, terms, terms[0], 1)
    } else {
        grouped_right(symbol, sorts, terms, terms.last(), terms.len() - 1)
    }
}

fn pair_terms(left: Term, right: Term) -> (items: Vec<Term>)
    ensures
        deep(items@) == seq![left@, right@],
{
    let mut items: Vec<Term> = Vec::new();
    items.push(left);
    items.push(right);
    assert(deep(items@) =~= seq![left@, right@]);
    items
}

fn group(left: bool, symbol: &Symbol, sorts: &Vec<Sort>, terms: &Vec<Term>) -> (term: Term)
    requires
        terms@.len() > 0,
    ensures
        term@ == grouped(left, symbol@, deep(sorts@), deep(terms@)),
{
    assert(deep(terms@)[0] == terms[0]@);
    assert(deep(terms@).last() == terms[terms@.len() - 1]@);
    if left {
        let mut term = terms[0].duplicate();
        let mut i: usize = 1;
        while i < terms.len()
            invariant
                1 <= i <= terms.len(),
                grouped_left(symbol@, deep(sorts@), deep(terms@), deep(terms@)[0], 1)
                    == grouped_left(symbol@, deep(sorts@), deep(terms@), term@, i as int),
            decreases terms.len() - i,
        {
            assert(deep(terms@)[i as int] == terms[i as int]@);
            term = apply_symbol(symbol, sorts, pair_terms(term, terms[i].duplicate()));
            i += 1;
        }
        term
    } else {
        let mut i: usize = terms.len() - 1;
        let mut term = terms[i].duplicate();
        while i > 0
            invariant
                i < terms.len(),
                grouped_right(
                    symbol@,
                    deep(sorts@),
                    deep(terms@),
                    deep(terms@).last(),
                    terms@.len() - 1,
                ) == grouped_right(symbol@, deep(sorts@), deep(terms@), term@, i as int),
            decreases i,
        {
            i -= 1;
            assert(deep(terms@)[i as int] == terms[i as int]@);
            term = apply_symbol(symbol, sorts, pair_terms(terms[i].duplicate(), term));
        }
        term
    }
}

/// The term that a pattern is.
pub open spec fn term_internalized<K: Kernel>(
    definition: &BackendDefinition<K>,
    pattern: KorePatternV,
    parameters: Seq<Seq<char>>,
) -> Result<TermV, DefinitionErrorV>
    decreases pattern, 0int, 0int,
{
    match pattern {
        KorePatternV::Variable(variable) => match variable_internalized(
            definition,
            variable,
            parameters,
        ) {
            Ok(variable) => Ok(TermV::Variable(variable)),
            Err(error) => Err(error),
        },
        KorePatternV::DomainValue { sort, value } => match sort_internalized(
            definition,
            sort,
            parameters,
        ) {
            Ok(sort) => Ok(TermV::DomainValue { sort, value }),
            Err(error) => Err(error),
        },
        KorePatternV::Application { symbol, arguments } => match terms_internalized(
            definition,
            arguments,
            parameters,
            Seq::empty(),
            0,
        ) {
            Err(error) => Err(error),
            Ok(terms) => if symbol.name == "inj"@ && symbol.sorts.len() == 2 && terms.len() == 1 {
                match sorts_fault(definition.sort_graph@, parameters, symbol.sorts, 0) {
                    Some(error) => Err(error),
                    None => Ok(
                        TermV::Injection {
                            source: symbol.sorts[0],
                            target: symbol.sorts[1],
                            term: Box::new(terms[0]),
                        },
                    ),
                }
            } else {
                match symbol_internalized(definition, symbol, parameters, terms.len()) {
                    Err(error) => Err(error),
                    Ok(found) => Ok(symbol_applied(found, symbol.sorts, terms)),
                }
            },
        },
        KorePatternV::AssociativeApplication { from_left, symbol, arguments } => {
            match terms_internalized(definition, arguments, parameters, Seq::empty(), 0) {
                Err(error) => Err(error),
                Ok(terms) => match symbol_internalized(definition, symbol, parameters, 2) {
                    Err(error) => Err(error),
                    Ok(found) => if terms.len() == 0 {
                        Err(DefinitionErrorV::UnsupportedTerm("empty application"@))
                    } else {
                        Ok(grouped(from_left, found, symbol.sorts, terms))
                    },
                },
            }
        },
        KorePatternV::Text(_) => Err(DefinitionErrorV::UnsupportedTerm("string"@)),
        _ => Err(DefinitionErrorV::UnsupportedTerm("predicate"@)),
    }
}

/// The terms that the patterns from `from` on are, behind `found`.
pub open spec fn terms_internalized<K: Kernel>(
    definition: &BackendDefinition<K>,
    patterns: Seq<KorePatternV>,
    parameters: Seq<Seq<char>>,
    found: Seq<TermV>,
    from: int,
) -> Result<Seq<TermV>, DefinitionErrorV>
    decreases patterns, 1int, patterns.len() - from,
{
    if !(0 <= from < patterns.len()) {
        Ok(found)
    } else {
        match term_internalized(definition, patterns[from], parameters) {
            Ok(term) => terms_internalized(
                definition,
                patterns,
                parameters,
                found.push(term),
                from + 1,
            ),
            Err(error) => Err(error),
        }
    }
}

impl<K: Kernel> BackendDefinition<K> {
    /// The sort of this definition that `sort` is, where its variables are among the parameters.
    pub fn internalize_syntax_sort(&self, sort: &Sort, parameters: &Vec<String>) -> (result: Result<
        Sort,
        DefinitionError,
    >)
        ensures
            result_view(result) == sort_internalized(self, sort@, deep(parameters@)),
    {
        match find_sort_fault(self, parameters, sort) {
            None => Ok(sort.duplicate()),
            Some(error) => Err(error),
        }
    }

    /// The variable of this definition that `variable` is.
    pub fn internalize_variable(&self, variable: &KoreVariable, parameters: &Vec<String>) -> (result:
        Result<Variable, DefinitionError>)
        ensures
            result_view(result) == variable_internalized(self, variable@, deep(parameters@)),
    {
        match self.internalize_syntax_sort(&variable.sort, parameters) {
            Ok(sort) => Ok(Variable::new(variable.name.as_str(), sort)),
            Err(error) => Err(error),
        }
    }

    /// The term of this definition that `pattern` is. Applications of the symbols of collections
    /// are collections.
    #[verifier::spinoff_prover]
    pub fn internalize_term(&self, pattern: &KorePattern, parameters: &Vec<String>) -> (result: Result<
        Term,
        DefinitionError,
    >)
        ensures
            result_view(result) == term_internalized(self, pattern@, deep(parameters@)),
        decreases pattern,
    {
        proof {
            lemma_kore_view(*pattern);
        }
        match pattern {
            KorePattern::Variable(variable) => match self.internalize_variable(
                variable,
                parameters,
            ) {
                Ok(variable) => Ok(Term::variable(variable)),
                Err(error) => Err(error),
            },
            KorePattern::DomainValue { sort, value } => match self.internalize_syntax_sort(
                sort,
                parameters,
            ) {
                Ok(sort) => Ok(Term::domain_value(sort, value.as_str())),
                Err(error) => Err(error),
            },
            KorePattern::Application { symbol, arguments } => {
                let terms = match self.internalize_terms(arguments, parameters) {
                    Ok(terms) => terms,
                    Err(error) => {
                        return Err(error);
                    },
                };
                if is_text(&symbol.name, "inj") && symbol.sorts.len() == 2 && terms.len() == 1 {
                    assert(deep(terms@)[0] == terms[0]@);
                    assert(deep(symbol.sorts@)[0] == symbol.sorts[0]@);
                    assert(deep(symbol.sorts@)[1] == symbol.sorts[1]@);
                    return match find_sorts_fault(self, parameters, &symbol.sorts) {
                        Some(error) => Err(error),
                        None => Ok(
                            Term::injection(
                                symbol.sorts[0].duplicate(),
                                symbol.sorts[1].duplicate(),
                                terms[0].duplicate(),
                            ),
                        ),
                    };
                }
                match find_symbol(self, symbol, parameters, terms.len()) {
                    Ok(found) => Ok(apply_symbol(found, &symbol.sorts, terms)),
                    Err(error) => Err(error),
                }
            },
            KorePattern::AssociativeApplication { from_left, symbol, arguments } => {
                let terms = match self.internalize_terms(arguments, parameters) {
                    Ok(terms) => terms,
                    Err(error) => {
                        return Err(error);
                    },
                };
                match find_symbol(self, symbol, parameters, 2) {
                    Ok(found) => {
                        if terms.len() == 0 {
                            return Err(DefinitionError::UnsupportedTerm("empty application"));
                        }
                        Ok(group(*from_left, found, &symbol.sorts, &terms))
                    },
                    Err(error) => Err(error),
                }
            },
            KorePattern::Text(_) => Err(DefinitionError::UnsupportedTerm("string")),
            _ => Err(DefinitionError::UnsupportedTerm("predicate")),
        }
    }

    fn internalize_terms(&self, patterns: &Vec<KorePattern>, parameters: &Vec<String>) -> (result:
        Result<Vec<Term>, DefinitionError>)
        ensures
            result_view(result) == terms_internalized(
                self,
                deep(patterns@),
                deep(parameters@),
                Seq::empty(),
                0,
            ),
        decreases patterns,
    {
        let mut found: Vec<Term> = Vec::new();
        let mut i: usize = 0;
        while i < patterns.len()
            invariant
                i <= patterns.len(),
                terms_internalized(self, deep(patterns@), deep(parameters@), Seq::empty(), 0)
                    == terms_internalized(
                    self,
                    deep(patterns@),
                    deep(parameters@),
                    deep(found@),
                    i as int,
                ),
            decreases patterns.len() - i,
        {
            assert(deep(patterns@)[i as int] == patterns[i as int]@);
            match self.internalize_term(&patterns[i], parameters) {
                Ok(term) => {
                    found.push(term);
                },
                Err(error) => {
                    return Err(error);
                },
            }
            i += 1;
        }
        Ok(found)
    }
}

} // verus!
