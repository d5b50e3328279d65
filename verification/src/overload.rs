//! Applications of overloaded symbols.

use vstd::prelude::*;
use crate::definition::BackendDefinition;
use crate::kernel::Kernel;
use crate::matching::{injected, Context};
use crate::model::{deep, group_deep, Value};
use crate::ops::{instantiate_sort, instantiated_sort, sort_of};
use crate::sorts::{
    is_subsort, least_common_overload, overloaded, overloaded_by, overloading, SortGraph,
    SortGraphV,
};
use crate::term::{lemma_term_view, Sort, SortV, Symbol, SymbolV, Term, TermV};

verus! {

broadcast use group_deep;

/// An application, perhaps below an injection, and the sort it is seen at.
#[derive(Debug, PartialEq, Eq)]
pub struct OverloadView {
    pub original_sort: Sort,
    pub symbol: Symbol,
    pub sort_arguments: Vec<Sort>,
    pub arguments: Vec<Term>,
}

/// The view of [`OverloadView`].
pub struct OverloadViewV {
    pub original_sort: SortV,
    pub symbol: SymbolV,
    pub sort_arguments: Seq<SortV>,
    pub arguments: Seq<TermV>,
}

impl View for OverloadView {
    type V = OverloadViewV;

    open spec fn view(&self) -> OverloadViewV {
        OverloadViewV {
            original_sort: self.original_sort@,
            symbol: self.symbol@,
            sort_arguments: deep(self.sort_arguments@),
            arguments: deep(self.arguments@),
        }
    }
}

impl DeepView for OverloadView {
    type V = OverloadViewV;

    open spec fn deep_view(&self) -> OverloadViewV {
        self@
    }
}

impl Value for OverloadView {
    fn duplicate(&self) -> (copy: Self) {
        OverloadView {
            original_sort: self.original_sort.duplicate(),
            symbol: self.symbol.duplicate(),
            sort_arguments: self.sort_arguments.duplicate(),
            arguments: self.arguments.duplicate(),
        }
    }

    fn equals(&self, other: &Self) -> (same: bool) {
        self.original_sort.equals(&other.original_sort)
            && self.symbol.equals(&other.symbol)
            && self.sort_arguments.equals(&other.sort_arguments)
            && self.arguments.equals(&other.arguments)
    }
}

/// The application that `term` is, perhaps below an injection.
pub open spec fn overload_view(term: TermV) -> Option<OverloadViewV> {
    match application_below(term) {
        Some(TermV::Application { symbol, sort_arguments, arguments }) => Some(
            OverloadViewV { original_sort: sort_of(term), symbol, sort_arguments, arguments },
        ),
        _ => None,
    }
}

/// The term itself, or the one below an injection.
pub open spec fn application_below(term: TermV) -> Option<TermV> {
    match term {
        TermV::Application { .. } => Some(term),
        TermV::Injection { term, .. } => Some(*term),
        _ => None,
    }
}

/// `term` at the sort `target`, injected where needed.
pub open spec fn at_sort(sorts: SortGraphV, term: TermV, target: SortV) -> Option<TermV> {
    if sort_of(term) == target {
        Some(term)
    } else if is_subsort(sorts, sort_of(term), target) {
        Some(injected(sort_of(term), target, term))
    } else {
        None
    }
}

/// The arguments from `from` on at the argument sorts of `common`.
pub open spec fn lifted_arguments(
    sorts: SortGraphV,
    arguments: Seq<TermV>,
    common: SymbolV,
    sort_arguments: Seq<SortV>,
    from: int,
) -> Option<Seq<TermV>>
    decreases arguments.len() - from,
{
    if from >= arguments.len() {
        Some(Seq::empty())
    } else {
        match at_sort(
            sorts,
            arguments[from],
            instantiated_sort(common.argument_sorts[from], common.sort_variables, sort_arguments),
        ) {
            Some(first) => match lifted_arguments(
                sorts,
                arguments,
                common,
                sort_arguments,
                from + 1,
            ) {
                Some(rest) => Some(seq![first] + rest),
                None => None,
            },
            None => None,
        }
    }
}

/// The application with the symbol `common` in place of its own, at the same sort.
pub open spec fn lifted(
    sorts: SortGraphV,
    view: OverloadViewV,
    common: SymbolV,
    sort_arguments: Seq<SortV>,
) -> Option<TermV> {
    if view.arguments.len() != common.argument_sorts.len() || sort_arguments.len()
        != common.sort_variables.len() {
        None
    } else {
        match lifted_arguments(sorts, view.arguments, common, sort_arguments, 0) {
            Some(arguments) => at_sort(
                sorts,
                TermV::Application { symbol: common, sort_arguments, arguments },
                view.original_sort,
            ),
            None => None,
        }
    }
}

fn inject_to_sort(term: Term, target: &Sort, sorts: &SortGraph) -> (result: Option<Term>)
    ensures
        result.deep_view() == at_sort(sorts@, term@, target@),
{
    let source = term.sort();
    if source.equals(target) {
        return Some(term);
    }
    if sorts.is_subsort(&source, target) {
        Some(Term::injection(source, target.duplicate(), term))
    } else {
        None
    }
}

impl OverloadView {
    pub(crate) fn new(term: &Term) -> (result: Option<Self>)
        ensures
            result.deep_view() == overload_view(term@),
    {
        proof {
            lemma_term_view(*term);
        }
        let application: &Term = match term {
            Term::Application { .. } => term,
            Term::Injection { term: inner, .. } => inner,
            _ => {
                return None;
            },
        };
        proof {
            lemma_term_view(*application);
        }
        match application {
            Term::Application { symbol, sort_arguments, arguments } => Some(
                OverloadView {
                    original_sort: term.sort(),
                    symbol: symbol.duplicate(),
                    sort_arguments: sort_arguments.duplicate(),
                    arguments: arguments.duplicate(),
                },
            ),
            _ => None,
        }
    }

    fn lift(&self, common: &Symbol, sort_arguments: &Vec<Sort>, sorts: &SortGraph) -> (result:
        Option<Term>)
        ensures
            result.deep_view() == lifted(sorts@, self@, common@, deep(sort_arguments@)),
    {
        if self.arguments.len() != common.argument_sorts.len() || sort_arguments.len()
            != common.sort_variables.len() {
            return None;
        }
        let mut arguments: Vec<Term> = Vec::new();
        let mut i: usize = 0;
        let ghost all = lifted_arguments(
            sorts@,
            deep(self.arguments@),
            common@,
            deep(sort_arguments@),
            0,
        );
        assert(all is Some ==> all->0 =~= deep(arguments@) + all->0);
        while i < self.arguments.len()
            invariant
                i <= self.arguments.len(),
                self.arguments.len() == common.argument_sorts.len(),
                self.arguments.len() == self@.arguments.len(),
                sort_arguments.len() == common.sort_variables.len(),
                all == (match lifted_arguments(
                    sorts@,
                    deep(self.arguments@),
                    common@,
                    deep(sort_arguments@),
                    i as int,
                ) {
                    Some(rest) => Some(deep(arguments@) + rest),
                    None => None,
                }),
                all == lifted_arguments(
                    sorts@,
                    deep(self.arguments@),
                    common@,
                    deep(sort_arguments@),
                    0,
                ),
            decreases self.arguments.len() - i,
        {
            assert(deep(self.arguments@)[i as int] == self.arguments[i as int]@);
            assert(common@.argument_sorts[i as int] == common.argument_sorts[i as int]@);
            let expected = instantiate_sort(
                &common.argument_sorts[i],
                &common.sort_variables,
                sort_arguments,
            );
            let ghost before = deep(arguments@);
            match inject_to_sort(self.arguments[i].duplicate(), &expected, sorts) {
                Some(argument) => {
                    arguments.push(argument);
                    proof {
                        let rest = lifted_arguments(
                            sorts@,
                            deep(self.arguments@),
                            common@,
                            deep(sort_arguments@),
                            i + 1,
                        );
                        if rest is Some {
                            assert(before + (seq![argument@] + rest->0) =~= deep(arguments@)
                                + rest->0);
                        }
                    }
                },
                None => {
                    return None;
                },
            }
            i += 1;
        }
        assert(deep(arguments@) + Seq::<TermV>::empty() =~= deep(arguments@));
        inject_to_sort(
            Term::application(common.duplicate(), sort_arguments.duplicate(), arguments),
            &self.original_sort,
            sorts,
        )
    }
}

/// The symbol that stands for both of two overloaded symbols: the one that overloads the other,
/// else the least one that overloads both.
pub open spec fn common_symbol<K: Kernel>(
    definition: BackendDefinition<K>,
    left: Seq<char>,
    right: Seq<char>,
) -> Option<Seq<char>> {
    if overloading(definition.overloads@, left, right) {
        Some(left)
    } else if overloading(definition.overloads@, right, left) {
        Some(right)
    } else {
        least_common_overload(definition.overloads@, left, right)
    }
}

/// A pair of applications of different overloaded symbols, with the symbol that stands for both.
pub open spec fn resolved_overloads<'a, K: Kernel>(
    context: Context<'a, K>,
    pattern: TermV,
    subject: TermV,
) -> Option<(TermV, TermV)> {
    match (context.definition, overload_view(pattern), overload_view(subject)) {
        (Some(definition), Some(left), Some(right)) => if left.symbol.name == right.symbol.name {
            None
        } else {
            match common_symbol(*definition, left.symbol.name, right.symbol.name) {
                Some(name) => match definition.spec_symbol(name) {
                    Some(common) => match common_sort_arguments(left, right, name, common) {
                        Some(sort_arguments) => match (
                            lifted(context.sorts@, left, common, sort_arguments),
                            lifted(context.sorts@, right, common, sort_arguments),
                        ) {
                            (Some(pattern), Some(subject)) => Some((pattern, subject)),
                            _ => None,
                        },
                        None => None,
                    },
                    None => None,
                },
                None => None,
            }
        },
        _ => None,
    }
}

/// The sort arguments for the common symbol.
pub open spec fn common_sort_arguments(
    left: OverloadViewV,
    right: OverloadViewV,
    name: Seq<char>,
    common: SymbolV,
) -> Option<Seq<SortV>> {
    if left.symbol.name == name {
        Some(left.sort_arguments)
    } else if right.symbol.name == name {
        Some(right.sort_arguments)
    } else if common.sort_variables.len() == 0 {
        Some(Seq::empty())
    } else {
        None
    }
}

pub(crate) fn resolve_overloads<'a, K: Kernel>(
    context: &Context<'a, K>,
    pattern: &Term,
    subject: &Term,
) -> (result: Option<(Term, Term)>)
    ensures
        result.deep_view() == resolved_overloads(*context, pattern@, subject@),
{
    let definition = match context.definition {
        Some(definition) => definition,
        None => {
            return None;
        },
    };
    let left = match OverloadView::new(pattern) {
        Some(view) => view,
        None => {
            return None;
        },
    };
    let right = match OverloadView::new(subject) {
        Some(view) => view,
        None => {
            return None;
        },
    };
    if left.symbol.name == right.symbol.name {
        return None;
    }
    let found: Option<String> = if definition.overloads.is_overloading(
        &left.symbol.name,
        &right.symbol.name,
    ) {
        Some(left.symbol.name.clone())
    } else if definition.overloads.is_overloading(&right.symbol.name, &left.symbol.name) {
        Some(right.symbol.name.clone())
    } else {
        definition.overloads.least_common_overload(&left.symbol.name, &right.symbol.name)
    };
    let name = match found {
        Some(name) => name,
        None => {
            return None;
        },
    };
    let common = match definition.symbol(name.as_str()) {
        Some(common) => common,
        None => {
            return None;
        },
    };
    let sort_arguments: Vec<Sort> = if left.symbol.name == name {
        left.sort_arguments.duplicate()
    } else if right.symbol.name == name {
        right.sort_arguments.duplicate()
    } else if common.sort_variables.len() == 0 {
        Vec::new()
    } else {
        return None;
    };
    let pattern = match left.lift(common, &sort_arguments, context.sorts) {
        Some(term) => term,
        None => {
            return None;
        },
    };
    let subject = match right.lift(common, &sort_arguments, context.sorts) {
        Some(term) => term,
        None => {
            return None;
        },
    };
    Some((pattern, subject))
}

/// Whether a symbol that is overloaded, one of the names from `from` on, may give a value of
/// `sort`.
pub open spec fn overload_fits_from<K: Kernel>(
    definition: BackendDefinition<K>,
    sorts: SortGraphV,
    names: Seq<Seq<char>>,
    sort: SortV,
    from: int,
) -> bool
    decreases names.len() - from,
{
    if from >= names.len() {
        false
    } else {
        (match definition.spec_symbol(names[from]) {
            Some(symbol) => symbol.sort_variables.len() == 0 && is_subsort(
                sorts,
                symbol.result_sort,
                sort,
            ),
            None => false,
        }) || overload_fits_from(definition, sorts, names, sort, from + 1)
    }
}

/// Whether binding the variable that is injected in `subject` may make it match `pattern` through
/// an overload.
pub open spec fn narrowable_overload<'a, K: Kernel>(
    context: Context<'a, K>,
    pattern: TermV,
    subject: TermV,
) -> bool {
    match (context.definition, overload_view(pattern), subject) {
        (Some(definition), Some(view), TermV::Injection { term, .. }) => *term is Variable
            && overload_fits_from(
            *definition,
            context.sorts@,
            overloaded_by(definition.overloads@, view.symbol.name),
            (*term)->Variable_0.sort,
            0,
        ),
        _ => false,
    }
}

pub(crate) fn can_narrow_overload<'a, K: Kernel>(
    context: &Context<'a, K>,
    pattern: &Term,
    subject: &Term,
) -> (result: bool)
    ensures
        result == narrowable_overload(*context, pattern@, subject@),
{
    proof {
        lemma_term_view(*subject);
    }
    let definition = match context.definition {
        Some(definition) => definition,
        None => {
            return false;
        },
    };
    let view = match OverloadView::new(pattern) {
        Some(view) => view,
        None => {
            return false;
        },
    };
    let inner: &Term = match subject {
        Term::Injection { term, .. } => term,
        _ => {
            return false;
        },
    };
    proof {
        lemma_term_view(*inner);
    }
    let variable = match inner {
        Term::Variable(variable) => variable,
        _ => {
            return false;
        },
    };
    let names = definition.overloads.overloaded_by(&view.symbol.name);
    let mut i: usize = 0;
    while i < names.len()
        invariant
            i <= names.len(),
            narrowable_overload(*context, pattern@, subject@) == overload_fits_from(
                *definition,
                context.sorts@,
                deep(names@),
                variable@.sort,
                i as int,
            ),
        decreases names.len() - i,
    {
        assert(deep(names@)[i as int] == names[i as int]@);
        if let Some(symbol) = definition.symbol(names[i].as_str()) {
            if symbol.sort_variables.len() == 0 && context.sorts.is_subsort(
                &symbol.result_sort,
                &variable.sort,
            ) {
                return true;
            }
        }
        i += 1;
    }
    false
}

/// Whether `term` is an application of an overloaded symbol.
pub open spec fn overload_head<'a, K: Kernel>(
    definition: Option<&'a BackendDefinition<K>>,
    term: TermV,
) -> bool {
    definition is Some && term is Application && overloaded(
        definition->0.overloads@,
        term->Application_symbol.name,
    )
}

pub(crate) fn is_overload_head<'a, K: Kernel>(
    definition: Option<&'a BackendDefinition<K>>,
    term: &Term,
) -> (result: bool)
    ensures
        result == overload_head(definition, term@),
{
    proof {
        lemma_term_view(*term);
    }
    match (definition, term) {
        (Some(definition), Term::Application { symbol, .. }) => definition.overloads.is_overloaded(
            &symbol.name,
        ),
        _ => false,
    }
}

} // verus!
