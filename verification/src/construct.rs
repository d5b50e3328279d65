//! Construction of terms in normal form, and what can be read off a whole term.

use vstd::prelude::*;
use crate::model::{deep, group_deep, Value};
use crate::ops::{
    children, insert_sorted, inserted, into_sorted, lemma_child_smaller, lemma_inserted_contains,
    sorted,
};
use crate::rebuild::{list_with_children, map_with_children, set_with_children, with_children};
use crate::term::{
    lemma_sort_view, lemma_term_view, rest_view, CollectionDefinition, CollectionDefinitionV, Sort,
    Symbol, SymbolType, Term, TermV, Variable, VariableV,
};

verus! {

broadcast use {group_deep, lemma_sort_view, lemma_term_view};

// ---------------------------------------------------------------------------------------------
// Collections
// ---------------------------------------------------------------------------------------------
/// A map that holds `entries` beside `rest`, which is not itself such a map.
pub open spec fn flat_map_term(
    definition: CollectionDefinitionV,
    entries: Seq<(TermV, TermV)>,
    rest: Option<Box<TermV>>,
) -> TermV {
    if entries.len() == 0 && rest is Some {
        *rest->0
    } else {
        TermV::KMap { definition, entries: sorted::<(Term, Term)>(entries), rest }
    }
}

/// The map of `entries` and `rest` in normal form: the entries are sorted, the entries of a rest
/// of the same kind are merged in, and a bare rest stands for itself.
#[verifier::opaque]
pub open spec fn map_term(
    definition: CollectionDefinitionV,
    entries: Seq<(TermV, TermV)>,
    rest: Option<Box<TermV>>,
) -> TermV {
    match rest {
        Some(inner) => match *inner {
            TermV::KMap { definition: other, entries: more, rest: deeper } => if other
                == definition {
                flat_map_term(definition, entries + more, deeper)
            } else {
                flat_map_term(definition, entries, rest)
            },
            _ => flat_map_term(definition, entries, rest),
        },
        None => flat_map_term(definition, entries, rest),
    }
}

/// A set that holds `elements` beside `rest`, which is not itself such a set.
pub open spec fn flat_set_term(
    definition: CollectionDefinitionV,
    elements: Seq<TermV>,
    rest: Option<Box<TermV>>,
) -> TermV {
    if elements.len() == 0 && rest is Some {
        *rest->0
    } else {
        TermV::KSet { definition, elements: sorted::<Term>(elements), rest }
    }
}

/// The set of `elements` and `rest` in normal form, as for maps.
#[verifier::opaque]
pub open spec fn set_term(
    definition: CollectionDefinitionV,
    elements: Seq<TermV>,
    rest: Option<Box<TermV>>,
) -> TermV {
    match rest {
        Some(inner) => match *inner {
            TermV::KSet { definition: other, elements: more, rest: deeper } => if other
                == definition {
                flat_set_term(definition, elements + more, deeper)
            } else {
                flat_set_term(definition, elements, rest)
            },
            _ => flat_set_term(definition, elements, rest),
        },
        None => flat_set_term(definition, elements, rest),
    }
}

/// A list of `heads`, `rest` and `tails`, where `rest` is not itself such a list.
pub open spec fn flat_list_term(
    definition: CollectionDefinitionV,
    heads: Seq<TermV>,
    rest: Option<Box<TermV>>,
    tails: Seq<TermV>,
) -> TermV {
    match rest {
        Some(inner) => if heads.len() == 0 && tails.len() == 0 {
            *inner
        } else {
            TermV::KList { definition, heads, rest, tails }
        },
        None => TermV::KList { definition, heads: heads + tails, rest, tails: Seq::empty() },
    }
}

/// The list of `heads`, `rest` and `tails` in normal form: the items of a rest of the same kind
/// are merged in, a list without a rest has heads only, and a bare rest stands for itself.
#[verifier::opaque]
pub open spec fn list_term(
    definition: CollectionDefinitionV,
    heads: Seq<TermV>,
    rest: Option<Box<TermV>>,
    tails: Seq<TermV>,
) -> TermV {
    match rest {
        Some(inner) => match *inner {
            TermV::KList {
                definition: other,
                heads: more_heads,
                rest: deeper,
                tails: more_tails,
            } => if other == definition {
                flat_list_term(definition, heads + more_heads, deeper, more_tails + tails)
            } else {
                flat_list_term(definition, heads, rest, tails)
            },
            _ => flat_list_term(definition, heads, rest, tails),
        },
        None => flat_list_term(definition, heads, rest, tails),
    }
}

fn boxed(term: Option<Term>) -> (result: Option<Box<Term>>)
    ensures
        rest_view(result) == (match term {
            Some(term) => Some(Box::new(term@)),
            None => None,
        }),
{
    match term {
        Some(term) => Some(Box::new(term)),
        None => None,
    }
}

fn flat_map(definition: CollectionDefinition, entries: Vec<(Term, Term)>, rest: Option<Box<Term>>)
    -> (result: Term)
    ensures
        result@ == flat_map_term(definition@, deep(entries@), rest_view(rest)),
{
    assert(deep(entries@).len() == entries@.len());
    if entries.len() == 0 {
        match rest {
            Some(inner) => *inner,
            None => Term::KMap { definition, entries: into_sorted(&entries), rest: None },
        }
    } else {
        Term::KMap { definition, entries: into_sorted(&entries), rest }
    }
}

fn flat_set(definition: CollectionDefinition, elements: Vec<Term>, rest: Option<Box<Term>>) -> (result:
    Term)
    ensures
        result@ == flat_set_term(definition@, deep(elements@), rest_view(rest)),
{
    assert(deep(elements@).len() == elements@.len());
    if elements.len() == 0 {
        match rest {
            Some(inner) => *inner,
            None => Term::KSet { definition, elements: into_sorted(&elements), rest: None },
        }
    } else {
        Term::KSet { definition, elements: into_sorted(&elements), rest }
    }
}

fn flat_list(
    definition: CollectionDefinition,
    heads: Vec<Term>,
    rest: Option<Box<Term>>,
    tails: Vec<Term>,
) -> (result: Term)
    ensures
        result@ == flat_list_term(definition@, deep(heads@), rest_view(rest), deep(tails@)),
{
    assert(deep(heads@).len() == heads@.len());
    assert(deep(tails@).len() == tails@.len());
    match rest {
        Some(inner) => {
            if heads.len() == 0 && tails.len() == 0 {
                *inner
            } else {
                Term::KList { definition, heads, rest: Some(inner), tails }
            }
        },
        None => {
            let mut heads = heads;
            let mut tails = tails;
            heads.append(&mut tails);
            Term::KList { definition, heads, rest: None, tails: Vec::new() }
        },
    }
}

/// The view of an optional rest that is not boxed yet.
pub open spec fn optional_view(rest: Option<Term>) -> Option<Box<TermV>> {
    match rest {
        Some(rest) => Some(Box::new(rest@)),
        None => None,
    }
}

impl Term {
    /// The conjunction of two terms.
    pub fn and(left: Term, right: Term) -> (term: Term)
        ensures
            term@ == TermV::And(Box::new(left@), Box::new(right@)),
    {
        Term::And(Box::new(left), Box::new(right))
    }

    /// A symbol applied to arguments.
    pub fn application(symbol: Symbol, sort_arguments: Vec<Sort>, arguments: Vec<Term>) -> (term:
        Term)
        ensures
            term@ == (TermV::Application {
                symbol: symbol@,
                sort_arguments: deep(sort_arguments@),
                arguments: deep(arguments@),
            }),
    {
        Term::Application { symbol, sort_arguments, arguments }
    }

    /// A value of a sort, written as text.
    pub fn domain_value(sort: Sort, value: &str) -> (term: Term)
        ensures
            term@ == (TermV::DomainValue { sort: sort@, value: value@ }),
    {
        Term::DomainValue { sort, value: value.to_owned() }
    }

    /// A variable as a term.
    pub fn variable(variable: Variable) -> (term: Term)
        ensures
            term@ == TermV::Variable(variable@),
    {
        Term::Variable(variable)
    }

    /// `term` injected from one sort into another.
    pub fn injection(source: Sort, target: Sort, term: Term) -> (result: Term)
        ensures
            result@ == (TermV::Injection {
                source: source@,
                target: target@,
                term: Box::new(term@),
            }),
    {
        Term::Injection { source, target, term: Box::new(term) }
    }

    /// The map of `entries` and `rest` in normal form.
    pub fn map(
        definition: CollectionDefinition,
        entries: Vec<(Term, Term)>,
        rest: Option<Term>,
    ) -> (term: Term)
        ensures
            term@ == map_term(definition@, deep(entries@), optional_view(rest)),
    {
        reveal(map_term);
        match rest {
            Some(Term::KMap { definition: other, entries: more, rest: deeper }) => {
                if other.equals(&definition) {
                    let mut entries = entries;
                    let mut more = more;
                    entries.append(&mut more);
                    flat_map(definition, entries, deeper)
                } else {
                    flat_map(
                        definition,
                        entries,
                        Some(
                            Box::new(Term::KMap { definition: other, entries: more, rest: deeper }),
                        ),
                    )
                }
            },
            rest => flat_map(definition, entries, boxed(rest)),
        }
    }

    /// The set of `elements` and `rest` in normal form.
    pub fn set(definition: CollectionDefinition, elements: Vec<Term>, rest: Option<Term>) -> (term:
        Term)
        ensures
            term@ == set_term(definition@, deep(elements@), optional_view(rest)),
    {
        reveal(set_term);
        match rest {
            Some(Term::KSet { definition: other, elements: more, rest: deeper }) => {
                if other.equals(&definition) {
                    let mut elements = elements;
                    let mut more = more;
                    elements.append(&mut more);
                    flat_set(definition, elements, deeper)
                } else {
                    flat_set(
                        definition,
                        elements,
                        Some(
                            Box::new(
                                Term::KSet { definition: other, elements: more, rest: deeper },
                            ),
                        ),
                    )
                }
            },
            rest => flat_set(definition, elements, boxed(rest)),
        }
    }

    /// The list of `heads`, `rest` and `tails` in normal form.
    pub fn list(
        definition: CollectionDefinition,
        heads: Vec<Term>,
        rest: Option<Term>,
        tails: Vec<Term>,
    ) -> (term: Term)
        ensures
            term@ == list_term(definition@, deep(heads@), optional_view(rest), deep(tails@)),
    {
        reveal(list_term);
        match rest {
            Some(
                Term::KList {
                    definition: other,
                    heads: more_heads,
                    rest: deeper,
                    tails: more_tails,
                },
            ) => {
                if other.equals(&definition) {
                    let mut heads = heads;
                    let mut more_heads = more_heads;
                    heads.append(&mut more_heads);
                    let mut more_tails = more_tails;
                    let mut tails = tails;
                    more_tails.append(&mut tails);
                    flat_list(definition, heads, deeper, more_tails)
                } else {
                    flat_list(
                        definition,
                        heads,
                        Some(
                            Box::new(
                                Term::KList {
                                    definition: other,
                                    heads: more_heads,
                                    rest: deeper,
                                    tails: more_tails,
                                },
                            ),
                        ),
                        tails,
                    )
                }
            },
            rest => flat_list(definition, heads, boxed(rest), tails),
        }
    }
}

impl Term {
    /// This term with its children replaced by `kids`, in normal form.
    pub fn with_children(&self, kids: Vec<Term>) -> (term: Term)
        requires
            kids.len() == children(self@).len(),
        ensures
            term@ == with_children(self@, deep(kids@)),
    {
        reveal(with_children);
        reveal(children);
        let mut kids = kids;
        let ghost all = deep(kids@);
        assert(all.len() == kids@.len());
        match self {
            Term::And(_, _) => {
                let left = kids.remove(0);
                let right = kids.remove(0);
                Term::and(left, right)
            },
            Term::Application { symbol, sort_arguments, .. } => Term::application(
                symbol.duplicate(),
                sort_arguments.duplicate(),
                kids,
            ),
            Term::DomainValue { .. } | Term::Variable(_) => self.duplicate(),
            Term::Injection { source, target, .. } => Term::injection(
                source.duplicate(),
                target.duplicate(),
                kids.remove(0),
            ),
            Term::KMap { definition, entries, rest } => map_with_children(
                definition,
                entries,
                rest,
                kids,
            ),
            Term::KList { definition, heads, rest, tails } => list_with_children(
                definition,
                heads,
                rest,
                tails,
                kids,
            ),
            Term::KSet { definition, elements, rest } => set_with_children(
                definition,
                elements,
                rest,
                kids,
            ),
        }
    }
}

// ---------------------------------------------------------------------------------------------
// Variables
// ---------------------------------------------------------------------------------------------
/// The sorted set `found` with the variables of `term` in it.
pub open spec fn variables_into(term: TermV, found: Seq<VariableV>) -> Seq<VariableV>
    decreases term, 1int, 0int,
{
    match term {
        TermV::Variable(variable) => inserted::<Variable>(found, variable),
        _ => child_variables_into(term, 0, found),
    }
}

/// The sorted set `found` with the variables of the children from `from` on in it.
pub open spec fn child_variables_into(
    term: TermV,
    from: int,
    found: Seq<VariableV>,
) -> Seq<VariableV>
    decreases term, 0int, children(term).len() - from,
{
    if 0 <= from < children(term).len() {
        proof {
            lemma_child_smaller(term, from);
        }
        child_variables_into(term, from + 1, variables_into(children(term)[from], found))
    } else {
        found
    }
}

/// The sorted set of the variables of `term`.
pub open spec fn variables_of(term: TermV) -> Seq<VariableV> {
    variables_into(term, Seq::empty())
}

/// Whether `variable` occurs in `term`.
pub open spec fn occurs(variable: VariableV, term: TermV) -> bool
    decreases term, 1int, 0int,
{
    match term {
        TermV::Variable(other) => other == variable,
        _ => occurs_from(variable, term, 0),
    }
}

/// Whether `variable` occurs in a child from `from` on.
pub open spec fn occurs_from(variable: VariableV, term: TermV, from: int) -> bool
    decreases term, 0int, children(term).len() - from,
{
    if 0 <= from < children(term).len() {
        proof {
            lemma_child_smaller(term, from);
        }
        occurs(variable, children(term)[from]) || occurs_from(variable, term, from + 1)
    } else {
        false
    }
}

/// The variables of a term are those that occur in it.
pub proof fn lemma_variables_into(term: TermV, found: Seq<VariableV>, variable: VariableV)
    ensures
        variables_into(term, found).contains(variable) <==> found.contains(variable) || occurs(
            variable,
            term,
        ),
    decreases term, 1int, 0int,
{
    match term {
        TermV::Variable(other) => {
            lemma_inserted_contains::<Variable>(found, other, 0, variable);
        },
        _ => {
            lemma_child_variables_into(term, 0, found, variable);
        },
    }
}

proof fn lemma_child_variables_into(
    term: TermV,
    from: int,
    found: Seq<VariableV>,
    variable: VariableV,
)
    ensures
        child_variables_into(term, from, found).contains(variable) <==> found.contains(variable)
            || occurs_from(variable, term, from),
    decreases term, 0int, children(term).len() - from,
{
    if 0 <= from < children(term).len() {
        lemma_child_smaller(term, from);
        lemma_variables_into(children(term)[from], found, variable);
        lemma_child_variables_into(
            term,
            from + 1,
            variables_into(children(term)[from], found),
            variable,
        );
    }
}

/// Add the variables of `term` to the sorted set `found`.
pub fn collect_variables(term: &Term, found: &mut Vec<Variable>)
    ensures
        deep(final(found)@) == variables_into(term@, deep(old(found)@)),
    decreases term@,
{
    match term {
        Term::Variable(variable) => insert_sorted(found, variable.duplicate()),
        _ => {
            let kids: Vec<&Term> = term.children();
            let mut i: usize = 0;
            while i < kids.len()
                invariant
                    i <= kids.len(),
                    deep(kids@) == children(term@),
                    child_variables_into(term@, i as int, deep(found@)) == child_variables_into(
                        term@,
                        0,
                        deep(old(found)@),
                    ),
                decreases kids.len() - i,
            {
                proof {
                    assert(children(term@)[i as int] == kids[i as int]@);
                    lemma_child_smaller(term@, i as int);
                }
                collect_variables(kids[i], found);
                i += 1;
            }
        },
    }
}

/// Whether `term` occurs nowhere: a test used before a binding is made.
pub fn occurs_in(variable: &Variable, term: &Term) -> (result: bool)
    ensures
        result == occurs(variable@, term@),
    decreases term@,
{
    match term {
        Term::Variable(other) => other.equals(variable),
        _ => {
            let kids: Vec<&Term> = term.children();
            let mut i: usize = 0;
            while i < kids.len()
                invariant
                    i <= kids.len(),
                    deep(kids@) == children(term@),
                    !(term@ is Variable),
                    occurs(variable@, term@) == occurs_from(variable@, term@, i as int),
                decreases kids.len() - i,
            {
                proof {
                    assert(children(term@)[i as int] == kids[i as int]@);
                    lemma_child_smaller(term@, i as int);
                }
                if occurs_in(variable, kids[i]) {
                    return true;
                }
                i += 1;
            }
            false
        },
    }
}

impl Term {
    /// The sorted set of the variables that occur in this term.
    pub fn variables(&self) -> (result: Vec<Variable>)
        ensures
            deep(result@) == variables_of(self@),
    {
        let mut found: Vec<Variable> = Vec::new();
        collect_variables(self, &mut found);
        found
    }
}

// ---------------------------------------------------------------------------------------------
// Constructor-like and evaluated terms
// ---------------------------------------------------------------------------------------------
/// Whether the head of `term` allows it to be constructor-like.
pub open spec fn constructor_like_head(term: TermV) -> bool {
    match term {
        TermV::And(_, _) => false,
        TermV::Application { symbol, .. } => symbol.attributes.symbol_type is Constructor,
        TermV::Variable(_) => false,
        _ => true,
    }
}

/// Whether `term` is built from constructors, injections, domain values and closed collections.
pub open spec fn constructor_like(term: TermV) -> bool
    decreases term, 1int, 0int,
{
    constructor_like_head(term) && constructor_like_from(term, 0)
}

/// Whether the children from `from` on are constructor-like.
pub open spec fn constructor_like_from(term: TermV, from: int) -> bool
    decreases term, 0int, children(term).len() - from,
{
    if 0 <= from < children(term).len() {
        proof {
            lemma_child_smaller(term, from);
        }
        constructor_like(children(term)[from]) && constructor_like_from(term, from + 1)
    } else {
        true
    }
}

/// Whether `term` holds no application of a function.
pub open spec fn evaluated(term: TermV) -> bool
    decreases term, 1int, 0int,
{
    (match term {
        TermV::Application { symbol, .. } => symbol.attributes.symbol_type is Constructor,
        _ => true,
    }) && evaluated_from(term, 0)
}

/// Whether the children from `from` on are evaluated.
pub open spec fn evaluated_from(term: TermV, from: int) -> bool
    decreases term, 0int, children(term).len() - from,
{
    if 0 <= from < children(term).len() {
        proof {
            lemma_child_smaller(term, from);
        }
        evaluated(children(term)[from]) && evaluated_from(term, from + 1)
    } else {
        true
    }
}

impl Term {
    /// Whether the term is built from constructors, injections, domain values and closed collections.
    pub fn is_constructor_like(&self) -> (result: bool)
        ensures
            result == constructor_like(self@),
        decreases self@,
    {
        let head: bool = match self {
            Term::And(_, _) => false,
            Term::Application { symbol, .. } => matches!(
                symbol.attributes.symbol_type,
                SymbolType::Constructor
            ),
            Term::Variable(_) => false,
            _ => true,
        };
        if !head {
            return false;
        }
        let kids: Vec<&Term> = self.children();
        let mut i: usize = 0;
        while i < kids.len()
            invariant
                i <= kids.len(),
                deep(kids@) == children(self@),
                constructor_like(self@) == constructor_like_from(self@, i as int),
            decreases kids.len() - i,
        {
            proof {
                assert(children(self@)[i as int] == kids[i as int]@);
                lemma_child_smaller(self@, i as int);
            }
            if !kids[i].is_constructor_like() {
                return false;
            }
            i += 1;
        }
        true
    }

    /// Whether the term holds no application of a function.
    pub fn is_evaluated(&self) -> (result: bool)
        ensures
            result == evaluated(self@),
        decreases self@,
    {
        if let Term::Application { symbol, .. } = self {
            if !matches!(symbol.attributes.symbol_type, SymbolType::Constructor) {
                return false;
            }
        }
        let kids: Vec<&Term> = self.children();
        let mut i: usize = 0;
        while i < kids.len()
            invariant
                i <= kids.len(),
                deep(kids@) == children(self@),
                evaluated(self@) == evaluated_from(self@, i as int),
            decreases kids.len() - i,
        {
            proof {
                assert(children(self@)[i as int] == kids[i as int]@);
                lemma_child_smaller(self@, i as int);
            }
            if !kids[i].is_evaluated() {
                return false;
            }
            i += 1;
        }
        true
    }
}

} // verus!
