//! Internal definitions: sorts, symbols and theories.

use vstd::prelude::*;
use crate::assoc::{assoc, assoc_get};
use crate::kernel::Kernel;
use crate::model::{deep, group_deep, Value};
use crate::rule::{PredicateRewriteRule, PredicateRewriteRuleV, Theory, TheoryV};
use crate::sorts::{OverloadGraph, OverloadGraphV, SortGraph, SortGraphV};
use crate::term::{lemma_term_view, Sort, SortV, Symbol, SymbolType, SymbolV, Term, TermV};

verus! {

broadcast use group_deep;

/// What a constructor pattern of a sort starts with: a constructor, or an injection from a subsort.
#[derive(Debug, PartialEq, Eq)]
pub enum ConstructorHead {
    Symbol(String),
    Injection(Sort),
}

/// The view of [`ConstructorHead`].
pub enum ConstructorHeadV {
    Symbol(Seq<char>),
    Injection(SortV),
}

impl View for ConstructorHead {
    type V = ConstructorHeadV;

    open spec fn view(&self) -> ConstructorHeadV {
        match self {
            ConstructorHead::Symbol(first) => ConstructorHeadV::Symbol(first@),
            ConstructorHead::Injection(first) => ConstructorHeadV::Injection(first@),
        }
    }
}

impl DeepView for ConstructorHead {
    type V = ConstructorHeadV;

    open spec fn deep_view(&self) -> ConstructorHeadV {
        self@
    }
}

impl Value for ConstructorHead {
    fn duplicate(&self) -> (copy: Self) {
        match self {
            ConstructorHead::Symbol(first) => ConstructorHead::Symbol(first.clone()),
            ConstructorHead::Injection(first) => ConstructorHead::Injection(first.duplicate()),
        }
    }

    fn equals(&self, other: &Self) -> (same: bool) {
        match (self, other) {
            (
                ConstructorHead::Symbol(first),
                ConstructorHead::Symbol(other_first),
            ) => *first == *other_first,
            (
                ConstructorHead::Injection(first),
                ConstructorHead::Injection(other_first),
            ) => first.equals(other_first),
            _ => false,
        }
    }
}

/// A definition in internal form.
pub struct BackendDefinition<K: Kernel> {
    pub sort_graph: SortGraph,
    pub symbols: Vec<Symbol>,
    pub overloads: OverloadGraph,
    pub rewrite_theory: Theory,
    pub function_theory: Theory,
    pub simplification_theory: Theory,
    pub ceil_theory: Theory,
    /// Equations between predicates, by ascending priority.
    pub predicate_simplification_theory: Vec<(u8, Vec<PredicateRewriteRule>)>,
    /// The constructor heads of the sorts that have finitely many.
    pub constructor_domains: Vec<(Sort, Vec<ConstructorHead>)>,
    pub kernel: K,
}

/// The view of [`BackendDefinition`].
pub struct BackendDefinitionV<K> {
    pub sort_graph: SortGraphV,
    pub symbols: Seq<SymbolV>,
    pub overloads: OverloadGraphV,
    pub rewrite_theory: TheoryV,
    pub function_theory: TheoryV,
    pub simplification_theory: TheoryV,
    pub ceil_theory: TheoryV,
    pub predicate_simplification_theory: Seq<(u8, Seq<PredicateRewriteRuleV>)>,
    pub constructor_domains: Seq<(SortV, Seq<ConstructorHeadV>)>,
    pub kernel: K,
}

impl<K: Kernel> View for BackendDefinition<K> {
    type V = BackendDefinitionV<K>;

    open spec fn view(&self) -> BackendDefinitionV<K> {
        BackendDefinitionV {
            sort_graph: self.sort_graph@,
            symbols: deep(self.symbols@),
            overloads: self.overloads@,
            rewrite_theory: self.rewrite_theory@,
            function_theory: self.function_theory@,
            simplification_theory: self.simplification_theory@,
            ceil_theory: self.ceil_theory@,
            predicate_simplification_theory: deep(self.predicate_simplification_theory@),
            constructor_domains: deep(self.constructor_domains@),
            kernel: self.kernel,
        }
    }
}

impl<K: Kernel> DeepView for BackendDefinition<K> {
    type V = BackendDefinitionV<K>;

    open spec fn deep_view(&self) -> BackendDefinitionV<K> {
        self@
    }
}

/// The symbol called `name` from position `from` on.
pub open spec fn symbol_from(symbols: Seq<SymbolV>, name: Seq<char>, from: int) -> Option<SymbolV>
    decreases symbols.len() - from,
{
    if from >= symbols.len() {
        None
    } else if symbols[from].name == name {
        Some(symbols[from])
    } else {
        symbol_from(symbols, name, from + 1)
    }
}

impl<K: Kernel> BackendDefinition<K> {
    /// A definition without symbols and rules.
    pub fn new(kernel: K) -> (definition: Self)
        ensures
            definition.sort_graph@.len() == 0,
            definition.symbols@.len() == 0,
            definition.overloads@.len() == 0,
            definition.rewrite_theory@.len() == 0,
            definition.function_theory@.len() == 0,
            definition.simplification_theory@.len() == 0,
            definition.ceil_theory@.len() == 0,
            definition.predicate_simplification_theory@.len() == 0,
            definition.constructor_domains@.len() == 0,
            definition.kernel == kernel,
    {
        BackendDefinition {
            sort_graph: SortGraph::new(),
            symbols: Vec::new(),
            overloads: OverloadGraph::new(),
            rewrite_theory: Theory::new(),
            function_theory: Theory::new(),
            simplification_theory: Theory::new(),
            ceil_theory: Theory::new(),
            predicate_simplification_theory: Vec::new(),
            constructor_domains: Vec::new(),
            kernel,
        }
    }

    /// The symbol called `name`.
    pub open spec fn spec_symbol(&self, name: Seq<char>) -> Option<SymbolV> {
        symbol_from(deep(self.symbols@), name, 0)
    }

    /// The symbol called `name`.
    pub fn symbol(&self, name: &str) -> (result: Option<&Symbol>)
        ensures
            result.deep_view() == self.spec_symbol(name@),
    {
        let wanted = name.to_owned();
        let mut i: usize = 0;
        while i < self.symbols.len()
            invariant
                i <= self.symbols.len(),
                wanted@ == name@,
                self.spec_symbol(name@) == symbol_from(deep(self.symbols@), name@, i as int),
            decreases self.symbols.len() - i,
        {
            assert(deep(self.symbols@)[i as int] == self.symbols[i as int]@);
            if self.symbols[i].name == wanted {
                return Some(&self.symbols[i]);
            }
            i += 1;
        }
        None
    }

    /// The constructor heads of `sort`, where they are finitely many.
    pub open spec fn spec_constructor_heads(&self, sort: SortV) -> Option<Seq<ConstructorHeadV>> {
        assoc(deep(self.constructor_domains@), sort)
    }

    /// The constructor heads of `sort`, where they are finitely many.
    pub fn finite_constructor_heads(&self, sort: &Sort) -> (result: Option<&Vec<ConstructorHead>>)
        ensures
            result.deep_view() == self.spec_constructor_heads(sort@),
    {
        assoc_get(&self.constructor_domains, sort)
    }
}

/// The constructor head of a term.
pub open spec fn constructor_head_of(term: TermV) -> Option<ConstructorHeadV> {
    match term {
        TermV::Application { symbol, .. } => if symbol.attributes.symbol_type is Constructor {
            Some(ConstructorHeadV::Symbol(symbol.name))
        } else {
            None
        },
        TermV::Injection { source, .. } => Some(ConstructorHeadV::Injection(source)),
        _ => None,
    }
}

/// The constructor head of a term.
pub fn constructor_head(term: &Term) -> (result: Option<ConstructorHead>)
    ensures
        result.deep_view() == constructor_head_of(term@),
{
    proof {
        lemma_term_view(*term);
    }
    match term {
        Term::Application { symbol, .. } => {
            if matches!(symbol.attributes.symbol_type, SymbolType::Constructor) {
                Some(ConstructorHead::Symbol(symbol.name.clone()))
            } else {
                None
            }
        },
        Term::Injection { source, .. } => Some(ConstructorHead::Injection(source.duplicate())),
        _ => None,
    }
}

} // verus!
