//! Sorts, variables, symbols and terms, with their mathematical views.

use vstd::prelude::*;
use crate::model::{deep, group_deep, Value};
use crate::sexpr::{SmtType, SmtTypeV};
use crate::text::is_text;

verus! {

broadcast use group_deep;

// ---------------------------------------------------------------------------------------------
// Sorts
// ---------------------------------------------------------------------------------------------
/// A sort: a sort parameter, or a sort constructor applied to sorts.
#[derive(Debug, PartialEq, Eq)]
pub enum Sort {
    Variable(String),
    Application { name: String, arguments: Vec<Sort> },
}

/// The view of a [`Sort`].
pub enum SortV {
    Variable(Seq<char>),
    Application { name: Seq<char>, arguments: Seq<SortV> },
}

/// The view of a sort.
#[verifier::opaque]
pub open spec fn sort_view(sort: Sort) -> SortV
    decreases sort,
{
    match sort {
        Sort::Variable(name) => SortV::Variable(name@),
        Sort::Application { name, arguments } => SortV::Application {
            name: name@,
            arguments: Seq::new(
                arguments@.len(),
                |i: int|
                    if 0 <= i < arguments@.len() {
                        sort_view(arguments@[i])
                    } else {
                        arbitrary()
                    },
            ),
        },
    }
}

impl View for Sort {
    type V = SortV;

    open spec fn view(&self) -> SortV {
        sort_view(*self)
    }
}

impl DeepView for Sort {
    type V = SortV;

    open spec fn deep_view(&self) -> SortV {
        self@
    }
}

pub broadcast proof fn lemma_sort_view(sort: Sort)
    ensures
        #[trigger] sort_view(sort) == (match sort {
            Sort::Variable(name) => SortV::Variable(name@),
            Sort::Application { name, arguments } => SortV::Application {
                name: name@,
                arguments: deep(arguments@),
            },
        }),
{
    reveal(sort_view);
    if let Sort::Application { name, arguments } = sort {
        assert(sort_view(sort)->arguments =~= deep(arguments@));
    }
}

fn duplicate_sorts(sorts: &Vec<Sort>) -> (copies: Vec<Sort>)
    ensures
        deep(copies@) == deep(sorts@),
    decreases sorts,
{
    let mut copies: Vec<Sort> = Vec::new();
    let mut i: usize = 0;
    while i < sorts.len()
        invariant
            i <= sorts.len(),
            copies.len() == i,
            forall|j: int| 0 <= j < i ==> copies[j]@ == sorts[j]@,
        decreases sorts.len() - i,
    {
        copies.push(sorts[i].duplicate());
        i += 1;
    }
    assert(deep(copies@) =~= deep(sorts@));
    copies
}

fn equal_sorts(left: &Vec<Sort>, right: &Vec<Sort>) -> (same: bool)
    ensures
        same == (deep(left@) == deep(right@)),
    decreases left,
{
    if left.len() != right.len() {
        assert(deep(left@).len() != deep(right@).len());
        return false;
    }
    let mut i: usize = 0;
    while i < left.len()
        invariant
            i <= left.len(),
            left.len() == right.len(),
            forall|j: int| 0 <= j < i ==> left[j]@ == right[j]@,
        decreases left.len() - i,
    {
        if !left[i].equals(&right[i]) {
            assert(deep(left@)[i as int] != deep(right@)[i as int]);
            return false;
        }
        i += 1;
    }
    assert(deep(left@) =~= deep(right@));
    true
}

impl Value for Sort {
    fn duplicate(&self) -> (copy: Self)
        decreases self,
    {
        broadcast use lemma_sort_view;

        match self {
            Sort::Variable(name) => Sort::Variable(name.clone()),
            Sort::Application { name, arguments } => Sort::Application {
                name: name.clone(),
                arguments: duplicate_sorts(arguments),
            },
        }
    }

    fn equals(&self, other: &Self) -> (same: bool)
        decreases self,
    {
        broadcast use lemma_sort_view;

        match (self, other) {
            (Sort::Variable(left), Sort::Variable(right)) => *left == *right,
            (
                Sort::Application { name, arguments },
                Sort::Application { name: other_name, arguments: other_arguments },
            ) => *name == *other_name && equal_sorts(arguments, other_arguments),
            _ => false,
        }
    }
}

/// The sort constructor `name` applied to no arguments.
pub open spec fn simple_sort(name: Seq<char>) -> SortV {
    SortV::Application { name, arguments: Seq::empty() }
}

impl Sort {
    /// A sort without arguments.
    pub fn simple(name: &str) -> (sort: Self)
        ensures
            sort@ == simple_sort(name@),
    {
        broadcast use lemma_sort_view;

        Sort::Application { name: name.to_owned(), arguments: Vec::new() }
    }

    /// Whether this is the constructor `name` applied to no arguments.
    pub fn is_simple(&self, name: &str) -> (result: bool)
        ensures
            result == (self@ == simple_sort(name@)),
    {
        broadcast use lemma_sort_view;

        match self {
            Sort::Variable(_) => false,
            Sort::Application { name: own, arguments } => {
                if arguments.len() != 0 {
                    assert(deep(arguments@).len() != 0);
                    false
                } else {
                    assert(deep(arguments@) =~= Seq::<SortV>::empty());
                    is_text(own, name)
                }
            },
        }
    }
}

// ---------------------------------------------------------------------------------------------
// Variables
// ---------------------------------------------------------------------------------------------
/// What a variable ranges over.
#[derive(Clone, Copy, Debug, PartialEq, Eq, Structural)]
pub enum VariableKind {
    Element,
    SetVariable,
}

impl DeepView for VariableKind {
    type V = VariableKind;

    open spec fn deep_view(&self) -> VariableKind {
        *self
    }
}

/// A sorted variable.
#[derive(Debug, PartialEq, Eq)]
pub struct Variable {
    pub name: String,
    pub sort: Sort,
    pub kind: VariableKind,
}

/// The view of a [`Variable`].
pub struct VariableV {
    pub name: Seq<char>,
    pub sort: SortV,
    pub kind: VariableKind,
}

impl View for Variable {
    type V = VariableV;

    open spec fn view(&self) -> VariableV {
        VariableV { name: self.name@, sort: self.sort@, kind: self.kind }
    }
}

impl DeepView for Variable {
    type V = VariableV;

    open spec fn deep_view(&self) -> VariableV {
        self@
    }
}

impl Value for Variable {
    fn duplicate(&self) -> (copy: Self) {
        Variable { name: self.name.clone(), sort: self.sort.duplicate(), kind: self.kind }
    }

    fn equals(&self, other: &Self) -> (same: bool) {
        self.name == other.name && self.sort.equals(&other.sort) && self.kind == other.kind
    }
}

impl Variable {
    /// An element variable.
    pub fn new(name: &str, sort: Sort) -> (variable: Self)
        ensures
            variable@ == (VariableV { name: name@, sort: sort@, kind: VariableKind::Element }),
    {
        Variable { name: name.to_owned(), sort, kind: VariableKind::Element }
    }

    /// This variable under another name.
    pub fn with_name(&self, name: String) -> (variable: Self)
        ensures
            variable@ == (VariableV { name: name@, ..self@ }),
    {
        Variable { name, sort: self.sort.duplicate(), kind: self.kind }
    }
}

// ---------------------------------------------------------------------------------------------
// Symbols
// ---------------------------------------------------------------------------------------------
/// Whether a function symbol is defined on all arguments.
#[derive(Clone, Copy, Debug, PartialEq, Eq, Structural)]
pub enum FunctionType {
    Total,
    Partial,
}

/// What a symbol stands for.
#[derive(Clone, Copy, Debug, PartialEq, Eq, Structural)]
pub enum SymbolType {
    Constructor,
    Function(FunctionType),
}

/// The symbols that build a collection, and the collection's sort.
#[derive(Debug, PartialEq, Eq)]
pub struct CollectionDefinition {
    pub unit: String,
    pub element: String,
    pub concat: String,
    pub sort: Sort,
}

/// The view of a [`CollectionDefinition`].
pub struct CollectionDefinitionV {
    pub unit: Seq<char>,
    pub element: Seq<char>,
    pub concat: Seq<char>,
    pub sort: SortV,
}

impl View for CollectionDefinition {
    type V = CollectionDefinitionV;

    open spec fn view(&self) -> CollectionDefinitionV {
        CollectionDefinitionV {
            unit: self.unit@,
            element: self.element@,
            concat: self.concat@,
            sort: self.sort@,
        }
    }
}

impl DeepView for CollectionDefinition {
    type V = CollectionDefinitionV;

    open spec fn deep_view(&self) -> CollectionDefinitionV {
        self@
    }
}

impl Value for CollectionDefinition {
    fn duplicate(&self) -> (copy: Self) {
        CollectionDefinition {
            unit: self.unit.clone(),
            element: self.element.clone(),
            concat: self.concat.clone(),
            sort: self.sort.duplicate(),
        }
    }

    fn equals(&self, other: &Self) -> (same: bool) {
        self.unit == other.unit && self.element == other.element && self.concat == other.concat
            && self.sort.equals(&other.sort)
    }
}

/// Which collection a symbol belongs to.
#[derive(Debug, PartialEq, Eq)]
pub enum CollectionMetadata {
    KMap(CollectionDefinition),
    KList(CollectionDefinition),
    KSet(CollectionDefinition),
}

/// The view of a [`CollectionMetadata`].
pub enum CollectionMetadataV {
    KMap(CollectionDefinitionV),
    KList(CollectionDefinitionV),
    KSet(CollectionDefinitionV),
}

impl View for CollectionMetadata {
    type V = CollectionMetadataV;

    open spec fn view(&self) -> CollectionMetadataV {
        match self {
            CollectionMetadata::KMap(definition) => CollectionMetadataV::KMap(definition@),
            CollectionMetadata::KList(definition) => CollectionMetadataV::KList(definition@),
            CollectionMetadata::KSet(definition) => CollectionMetadataV::KSet(definition@),
        }
    }
}

impl DeepView for CollectionMetadata {
    type V = CollectionMetadataV;

    open spec fn deep_view(&self) -> CollectionMetadataV {
        self@
    }
}

impl Value for CollectionMetadata {
    fn duplicate(&self) -> (copy: Self) {
        match self {
            CollectionMetadata::KMap(definition) => CollectionMetadata::KMap(
                definition.duplicate(),
            ),
            CollectionMetadata::KList(definition) => CollectionMetadata::KList(
                definition.duplicate(),
            ),
            CollectionMetadata::KSet(definition) => CollectionMetadata::KSet(
                definition.duplicate(),
            ),
        }
    }

    fn equals(&self, other: &Self) -> (same: bool) {
        match (self, other) {
            (CollectionMetadata::KMap(left), CollectionMetadata::KMap(right)) => left.equals(right),
            (CollectionMetadata::KList(left), CollectionMetadata::KList(right)) => left.equals(
                right,
            ),
            (CollectionMetadata::KSet(left), CollectionMetadata::KSet(right)) => left.equals(right),
            _ => false,
        }
    }
}

/// What is known of a symbol beyond its signature.
#[derive(Debug, PartialEq, Eq)]
pub struct SymbolAttributes {
    pub symbol_type: SymbolType,
    pub associative: bool,
    pub idempotent: bool,
    pub injective: bool,
    pub macro_or_alias: bool,
    pub has_evaluators: bool,
    pub smt: Option<SmtType>,
    pub hook: Option<String>,
    pub collection: Option<CollectionMetadata>,
}

/// The view of [`SymbolAttributes`].
pub struct SymbolAttributesV {
    pub symbol_type: SymbolType,
    pub associative: bool,
    pub idempotent: bool,
    pub injective: bool,
    pub macro_or_alias: bool,
    pub has_evaluators: bool,
    pub smt: Option<SmtTypeV>,
    pub hook: Option<Seq<char>>,
    pub collection: Option<CollectionMetadataV>,
}

impl View for SymbolAttributes {
    type V = SymbolAttributesV;

    open spec fn view(&self) -> SymbolAttributesV {
        SymbolAttributesV {
            symbol_type: self.symbol_type,
            associative: self.associative,
            idempotent: self.idempotent,
            injective: self.injective,
            macro_or_alias: self.macro_or_alias,
            has_evaluators: self.has_evaluators,
            smt: self.smt.deep_view(),
            hook: self.hook.deep_view(),
            collection: self.collection.deep_view(),
        }
    }
}

impl DeepView for SymbolAttributes {
    type V = SymbolAttributesV;

    open spec fn deep_view(&self) -> SymbolAttributesV {
        self@
    }
}

impl Value for SymbolAttributes {
    fn duplicate(&self) -> (copy: Self) {
        SymbolAttributes {
            symbol_type: self.symbol_type,
            associative: self.associative,
            idempotent: self.idempotent,
            injective: self.injective,
            macro_or_alias: self.macro_or_alias,
            has_evaluators: self.has_evaluators,
            smt: self.smt.duplicate(),
            hook: self.hook.duplicate(),
            collection: self.collection.duplicate(),
        }
    }

    fn equals(&self, other: &Self) -> (same: bool) {
        self.symbol_type == other.symbol_type && self.associative == other.associative
            && self.idempotent == other.idempotent && self.injective == other.injective
            && self.macro_or_alias == other.macro_or_alias && self.has_evaluators
            == other.has_evaluators && self.smt.equals(&other.smt) && self.hook.equals(&other.hook)
            && self.collection.equals(&other.collection)
    }
}

/// The attributes of a plain symbol of type `symbol_type`.
pub open spec fn plain_attributes(symbol_type: SymbolType) -> SymbolAttributesV {
    SymbolAttributesV {
        symbol_type,
        associative: false,
        idempotent: false,
        injective: symbol_type is Constructor,
        macro_or_alias: false,
        has_evaluators: false,
        smt: None,
        hook: None,
        collection: None,
    }
}

impl SymbolAttributes {
    /// The attributes of a symbol of the given type that has no others.
    pub fn plain(symbol_type: SymbolType) -> (attributes: Self)
        ensures
            attributes@ == plain_attributes(symbol_type),
    {
        SymbolAttributes {
            symbol_type,
            associative: false,
            idempotent: false,
            injective: matches!(symbol_type, SymbolType::Constructor),
            macro_or_alias: false,
            has_evaluators: false,
            smt: None,
            hook: None,
            collection: None,
        }
    }
}

/// A symbol with its signature.
#[derive(Debug, PartialEq, Eq)]
pub struct Symbol {
    pub name: String,
    pub sort_variables: Vec<String>,
    pub argument_sorts: Vec<Sort>,
    pub result_sort: Sort,
    pub attributes: SymbolAttributes,
}

/// The view of a [`Symbol`].
pub struct SymbolV {
    pub name: Seq<char>,
    pub sort_variables: Seq<Seq<char>>,
    pub argument_sorts: Seq<SortV>,
    pub result_sort: SortV,
    pub attributes: SymbolAttributesV,
}

impl View for Symbol {
    type V = SymbolV;

    open spec fn view(&self) -> SymbolV {
        SymbolV {
            name: self.name@,
            sort_variables: deep(self.sort_variables@),
            argument_sorts: deep(self.argument_sorts@),
            result_sort: self.result_sort@,
            attributes: self.attributes@,
        }
    }
}

impl DeepView for Symbol {
    type V = SymbolV;

    open spec fn deep_view(&self) -> SymbolV {
        self@
    }
}

impl Value for Symbol {
    fn duplicate(&self) -> (copy: Self) {
        Symbol {
            name: self.name.clone(),
            sort_variables: self.sort_variables.duplicate(),
            argument_sorts: self.argument_sorts.duplicate(),
            result_sort: self.result_sort.duplicate(),
            attributes: self.attributes.duplicate(),
        }
    }

    fn equals(&self, other: &Self) -> (same: bool) {
        self.name == other.name && self.sort_variables.equals(&other.sort_variables)
            && self.argument_sorts.equals(&other.argument_sorts) && self.result_sort.equals(
            &other.result_sort,
        ) && self.attributes.equals(&other.attributes)
    }
}

impl Symbol {
    /// A constructor without sort parameters.
    pub fn constructor(name: &str, argument_sorts: Vec<Sort>, result_sort: Sort) -> (symbol: Self)
        ensures
            symbol@ == (SymbolV {
                name: name@,
                sort_variables: Seq::empty(),
                argument_sorts: deep(argument_sorts@),
                result_sort: result_sort@,
                attributes: plain_attributes(SymbolType::Constructor),
            }),
    {
        Symbol {
            name: name.to_owned(),
            sort_variables: Vec::new(),
            argument_sorts,
            result_sort,
            attributes: SymbolAttributes::plain(SymbolType::Constructor),
        }
    }
}

// ---------------------------------------------------------------------------------------------
// Terms
// ---------------------------------------------------------------------------------------------
/// A term.
///
/// A map, list or set holds the items that are known to be in it, and, where it is open, the
/// opaque rest. The rest of a list stands between its heads and its tails.
#[derive(Debug, PartialEq, Eq)]
pub enum Term {
    And(Box<Term>, Box<Term>),
    Application { symbol: Symbol, sort_arguments: Vec<Sort>, arguments: Vec<Term> },
    DomainValue { sort: Sort, value: String },
    Variable(Variable),
    Injection { source: Sort, target: Sort, term: Box<Term> },
    KMap {
        definition: CollectionDefinition,
        entries: Vec<(Term, Term)>,
        rest: Option<Box<Term>>,
    },
    KList {
        definition: CollectionDefinition,
        heads: Vec<Term>,
        rest: Option<Box<Term>>,
        tails: Vec<Term>,
    },
    KSet { definition: CollectionDefinition, elements: Vec<Term>, rest: Option<Box<Term>> },
}

/// The view of a [`Term`].
pub enum TermV {
    And(Box<TermV>, Box<TermV>),
    Application { symbol: SymbolV, sort_arguments: Seq<SortV>, arguments: Seq<TermV> },
    DomainValue { sort: SortV, value: Seq<char> },
    Variable(VariableV),
    Injection { source: SortV, target: SortV, term: Box<TermV> },
    KMap {
        definition: CollectionDefinitionV,
        entries: Seq<(TermV, TermV)>,
        rest: Option<Box<TermV>>,
    },
    KList {
        definition: CollectionDefinitionV,
        heads: Seq<TermV>,
        rest: Option<Box<TermV>>,
        tails: Seq<TermV>,
    },
    KSet { definition: CollectionDefinitionV, elements: Seq<TermV>, rest: Option<Box<TermV>> },
}

/// The view of a term.
#[verifier::opaque]
pub open spec fn term_view(term: Term) -> TermV
    decreases term,
{
    match term {
        Term::And(left, right) => TermV::And(
            Box::new(term_view(*left)),
            Box::new(term_view(*right)),
        ),
        Term::Application { symbol, sort_arguments, arguments } => TermV::Application {
            symbol: symbol@,
            sort_arguments: deep(sort_arguments@),
            arguments: Seq::new(
                arguments@.len(),
                |i: int|
                    if 0 <= i < arguments@.len() {
                        term_view(arguments@[i])
                    } else {
                        arbitrary()
                    },
            ),
        },
        Term::DomainValue { sort, value } => TermV::DomainValue { sort: sort@, value: value@ },
        Term::Variable(variable) => TermV::Variable(variable@),
        Term::Injection { source, target, term } => TermV::Injection {
            source: source@,
            target: target@,
            term: Box::new(term_view(*term)),
        },
        Term::KMap { definition, entries, rest } => TermV::KMap {
            definition: definition@,
            entries: Seq::new(
                entries@.len(),
                |i: int|
                    if 0 <= i < entries@.len() {
                        (term_view(entries@[i].0), term_view(entries@[i].1))
                    } else {
                        arbitrary()
                    },
            ),
            rest: match rest {
                Some(rest) => Some(Box::new(term_view(*rest))),
                None => None,
            },
        },
        Term::KList { definition, heads, rest, tails } => TermV::KList {
            definition: definition@,
            heads: Seq::new(
                heads@.len(),
                |i: int|
                    if 0 <= i < heads@.len() {
                        term_view(heads@[i])
                    } else {
                        arbitrary()
                    },
            ),
            rest: match rest {
                Some(rest) => Some(Box::new(term_view(*rest))),
                None => None,
            },
            tails: Seq::new(
                tails@.len(),
                |i: int|
                    if 0 <= i < tails@.len() {
                        term_view(tails@[i])
                    } else {
                        arbitrary()
                    },
            ),
        },
        Term::KSet { definition, elements, rest } => TermV::KSet {
            definition: definition@,
            elements: Seq::new(
                elements@.len(),
                |i: int|
                    if 0 <= i < elements@.len() {
                        term_view(elements@[i])
                    } else {
                        arbitrary()
                    },
            ),
            rest: match rest {
                Some(rest) => Some(Box::new(term_view(*rest))),
                None => None,
            },
        },
    }
}

impl View for Term {
    type V = TermV;

    open spec fn view(&self) -> TermV {
        term_view(*self)
    }
}

impl DeepView for Term {
    type V = TermV;

    open spec fn deep_view(&self) -> TermV {
        self@
    }
}

/// The view of the opaque rest of a collection.
pub open spec fn rest_view(rest: Option<Box<Term>>) -> Option<Box<TermV>> {
    match rest {
        Some(rest) => Some(Box::new(rest@)),
        None => None,
    }
}

pub broadcast proof fn lemma_term_view(term: Term)
    ensures
        #[trigger] term_view(term) == (match term {
            Term::And(left, right) => TermV::And(Box::new(left@), Box::new(right@)),
            Term::Application { symbol, sort_arguments, arguments } => TermV::Application {
                symbol: symbol@,
                sort_arguments: deep(sort_arguments@),
                arguments: deep(arguments@),
            },
            Term::DomainValue { sort, value } => TermV::DomainValue { sort: sort@, value: value@ },
            Term::Variable(variable) => TermV::Variable(variable@),
            Term::Injection { source, target, term } => TermV::Injection {
                source: source@,
                target: target@,
                term: Box::new(term@),
            },
            Term::KMap { definition, entries, rest } => TermV::KMap {
                definition: definition@,
                entries: deep(entries@),
                rest: rest_view(rest),
            },
            Term::KList { definition, heads, rest, tails } => TermV::KList {
                definition: definition@,
                heads: deep(heads@),
                rest: rest_view(rest),
                tails: deep(tails@),
            },
            Term::KSet { definition, elements, rest } => TermV::KSet {
                definition: definition@,
                elements: deep(elements@),
                rest: rest_view(rest),
            },
        }),
{
    reveal(term_view);
    match term {
        Term::Application { symbol, sort_arguments, arguments } => {
            assert(term_view(term)->Application_arguments =~= deep(arguments@));
        },
        Term::KMap { definition, entries, rest } => {
            assert(term_view(term)->KMap_entries =~= deep(entries@));
        },
        Term::KList { definition, heads, rest, tails } => {
            assert(term_view(term)->KList_heads =~= deep(heads@));
            assert(term_view(term)->KList_tails =~= deep(tails@));
        },
        Term::KSet { definition, elements, rest } => {
            assert(term_view(term)->KSet_elements =~= deep(elements@));
        },
        _ => {},
    }
}

fn duplicate_terms(terms: &Vec<Term>) -> (copies: Vec<Term>)
    ensures
        deep(copies@) == deep(terms@),
    decreases terms,
{
    let mut copies: Vec<Term> = Vec::new();
    let mut i: usize = 0;
    while i < terms.len()
        invariant
            i <= terms.len(),
            copies.len() == i,
            forall|j: int| 0 <= j < i ==> copies[j]@ == terms[j]@,
        decreases terms.len() - i,
    {
        copies.push(terms[i].duplicate());
        i += 1;
    }
    assert(deep(copies@) =~= deep(terms@));
    copies
}

fn duplicate_entries(entries: &Vec<(Term, Term)>) -> (copies: Vec<(Term, Term)>)
    ensures
        deep(copies@) == deep(entries@),
    decreases entries,
{
    let mut copies: Vec<(Term, Term)> = Vec::new();
    let mut i: usize = 0;
    while i < entries.len()
        invariant
            i <= entries.len(),
            copies.len() == i,
            forall|j: int|
                0 <= j < i ==> (#[trigger] copies[j]).0@ == entries[j].0@ && copies[j].1@
                    == entries[j].1@,
        decreases entries.len() - i,
    {
        copies.push((entries[i].0.duplicate(), entries[i].1.duplicate()));
        i += 1;
    }
    assert(deep(copies@) =~= deep(entries@));
    copies
}

fn duplicate_rest(rest: &Option<Box<Term>>) -> (copy: Option<Box<Term>>)
    ensures
        rest_view(copy) == rest_view(*rest),
    decreases rest,
{
    match rest {
        Some(rest) => Some(Box::new(rest.duplicate())),
        None => None,
    }
}

fn equal_terms(left: &Vec<Term>, right: &Vec<Term>) -> (same: bool)
    ensures
        same == (deep(left@) == deep(right@)),
    decreases left,
{
    if left.len() != right.len() {
        assert(deep(left@).len() != deep(right@).len());
        return false;
    }
    let mut i: usize = 0;
    while i < left.len()
        invariant
            i <= left.len(),
            left.len() == right.len(),
            forall|j: int| 0 <= j < i ==> left[j]@ == right[j]@,
        decreases left.len() - i,
    {
        if !left[i].equals(&right[i]) {
            assert(deep(left@)[i as int] != deep(right@)[i as int]);
            return false;
        }
        i += 1;
    }
    assert(deep(left@) =~= deep(right@));
    true
}

fn equal_entries(left: &Vec<(Term, Term)>, right: &Vec<(Term, Term)>) -> (same: bool)
    ensures
        same == (deep(left@) == deep(right@)),
    decreases left,
{
    if left.len() != right.len() {
        assert(deep(left@).len() != deep(right@).len());
        return false;
    }
    let mut i: usize = 0;
    while i < left.len()
        invariant
            i <= left.len(),
            left.len() == right.len(),
            forall|j: int|
                0 <= j < i ==> (#[trigger] left[j]).0@ == right[j].0@ && left[j].1@ == right[j].1@,
        decreases left.len() - i,
    {
        if !left[i].0.equals(&right[i].0) || !left[i].1.equals(&right[i].1) {
            assert(deep(left@)[i as int] != deep(right@)[i as int]);
            return false;
        }
        i += 1;
    }
    assert(deep(left@) =~= deep(right@));
    true
}

fn equal_rests(left: &Option<Box<Term>>, right: &Option<Box<Term>>) -> (same: bool)
    ensures
        same == (rest_view(*left) == rest_view(*right)),
    decreases left,
{
    match (left, right) {
        (Some(left), Some(right)) => left.equals(right),
        (None, None) => true,
        _ => false,
    }
}

impl Value for Term {
    fn duplicate(&self) -> (copy: Self)
        decreases self,
    {
        broadcast use lemma_term_view;

        match self {
            Term::And(left, right) => Term::And(
                Box::new(left.duplicate()),
                Box::new(right.duplicate()),
            ),
            Term::Application { symbol, sort_arguments, arguments } => Term::Application {
                symbol: symbol.duplicate(),
                sort_arguments: sort_arguments.duplicate(),
                arguments: duplicate_terms(arguments),
            },
            Term::DomainValue { sort, value } => Term::DomainValue {
                sort: sort.duplicate(),
                value: value.clone(),
            },
            Term::Variable(variable) => Term::Variable(variable.duplicate()),
            Term::Injection { source, target, term } => Term::Injection {
                source: source.duplicate(),
                target: target.duplicate(),
                term: Box::new(term.duplicate()),
            },
            Term::KMap { definition, entries, rest } => Term::KMap {
                definition: definition.duplicate(),
                entries: duplicate_entries(entries),
                rest: duplicate_rest(rest),
            },
            Term::KList { definition, heads, rest, tails } => Term::KList {
                definition: definition.duplicate(),
                heads: duplicate_terms(heads),
                rest: duplicate_rest(rest),
                tails: duplicate_terms(tails),
            },
            Term::KSet { definition, elements, rest } => Term::KSet {
                definition: definition.duplicate(),
                elements: duplicate_terms(elements),
                rest: duplicate_rest(rest),
            },
        }
    }

    fn equals(&self, other: &Self) -> (same: bool)
        decreases self,
    {
        broadcast use lemma_term_view;

        match (self, other) {
            (Term::And(left, right), Term::And(other_left, other_right)) => left.equals(other_left)
                && right.equals(other_right),
            (
                Term::Application { symbol, sort_arguments, arguments },
                Term::Application {
                    symbol: symbol2,
                    sort_arguments: sorts2,
                    arguments: arguments2,
                },
            ) => symbol.equals(symbol2) && sort_arguments.equals(sorts2) && equal_terms(
                arguments,
                arguments2,
            ),
            (
                Term::DomainValue { sort, value },
                Term::DomainValue { sort: sort2, value: value2 },
            ) => sort.equals(sort2) && *value == *value2,
            (Term::Variable(left), Term::Variable(right)) => left.equals(right),
            (
                Term::Injection { source, target, term },
                Term::Injection { source: source2, target: target2, term: term2 },
            ) => source.equals(source2) && target.equals(target2) && term.equals(term2),
            (
                Term::KMap { definition, entries, rest },
                Term::KMap { definition: definition2, entries: entries2, rest: rest2 },
            ) => definition.equals(definition2) && equal_entries(entries, entries2) && equal_rests(
                rest,
                rest2,
            ),
            (
                Term::KList { definition, heads, rest, tails },
                Term::KList { definition: definition2, heads: heads2, rest: rest2, tails: tails2 },
            ) => definition.equals(definition2) && equal_terms(heads, heads2) && equal_rests(
                rest,
                rest2,
            ) && equal_terms(tails, tails2),
            (
                Term::KSet { definition, elements, rest },
                Term::KSet { definition: definition2, elements: elements2, rest: rest2 },
            ) => definition.equals(definition2) && equal_terms(elements, elements2) && equal_rests(
                rest,
                rest2,
            ),
            _ => false,
        }
    }
}

} // verus!
