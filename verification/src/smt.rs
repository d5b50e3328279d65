//! Translation of terms and predicates to the language of SMT solvers.

use vstd::prelude::*;
use crate::assoc::{assoc, assoc_bound, assoc_get, assoc_insert, law_bound};
use crate::kernel::result_view;
use crate::model::{deep, group_deep, Value};
use crate::names::{decimal, decimal_text, lemma_decimal_injective};
use crate::numbers::{number_from, parse_number};
use crate::ops::{children, lemma_child_smaller, sort_of};
use crate::construct::constructor_like;
use crate::predicate::{lemma_predicate_view, Predicate, PredicateV};
use crate::sexpr::{lemma_sexpr_view, SExpr, SExprV, SmtType, SmtTypeV};
use crate::term::{lemma_term_view, simple_sort, Term, TermV};

verus! {

broadcast use group_deep;

/// Why something cannot be translated.
#[derive(Debug, PartialEq, Eq)]
pub enum TranslationError {
    NonBooleanAnd(Term),
    PlaceholderOutOfBounds { placeholder: usize, arguments: usize },
    UnsupportedPredicate(&'static str),
}

/// The view of [`TranslationError`].
pub enum TranslationErrorV {
    NonBooleanAnd(TermV),
    PlaceholderOutOfBounds { placeholder: usize, arguments: usize },
    UnsupportedPredicate(Seq<char>),
}

impl View for TranslationError {
    type V = TranslationErrorV;

    open spec fn view(&self) -> TranslationErrorV {
        match self {
            TranslationError::NonBooleanAnd(first) => TranslationErrorV::NonBooleanAnd(first@),
            TranslationError::PlaceholderOutOfBounds {
                placeholder,
                arguments,
            } => TranslationErrorV::PlaceholderOutOfBounds {
                placeholder: *placeholder,
                arguments: *arguments,
            },
            TranslationError::UnsupportedPredicate(first) => TranslationErrorV::UnsupportedPredicate(
                first@,
            ),
        }
    }
}

impl DeepView for TranslationError {
    type V = TranslationErrorV;

    open spec fn deep_view(&self) -> TranslationErrorV {
        self@
    }
}

impl Value for TranslationError {
    fn duplicate(&self) -> (copy: Self) {
        match self {
            TranslationError::NonBooleanAnd(first) => TranslationError::NonBooleanAnd(
                first.duplicate(),
            ),
            TranslationError::PlaceholderOutOfBounds {
                placeholder,
                arguments,
            } => TranslationError::PlaceholderOutOfBounds {
                placeholder: *placeholder,
                arguments: *arguments,
            },
            TranslationError::UnsupportedPredicate(first) => TranslationError::UnsupportedPredicate(
                *first,
            ),
        }
    }

    fn equals(&self, other: &Self) -> (same: bool) {
        match (self, other) {
            (
                TranslationError::NonBooleanAnd(first),
                TranslationError::NonBooleanAnd(other_first),
            ) => first.equals(other_first),
            (
                TranslationError::PlaceholderOutOfBounds { placeholder, arguments },
                TranslationError::PlaceholderOutOfBounds {
                    placeholder: other_placeholder,
                    arguments: other_arguments,
                },
            ) => *placeholder == *other_placeholder && *arguments == *other_arguments,
            (
                TranslationError::UnsupportedPredicate(first),
                TranslationError::UnsupportedPredicate(other_first),
            ) => first.equals(other_first),
            _ => false,
        }
    }
}

/// The list of an operator and its arguments.
pub open spec fn applied_to(operator: Seq<char>, arguments: Seq<SExprV>) -> SExprV {
    SExprV::List(seq![SExprV::Atom(operator)] + arguments)
}

fn application(operator: &str, arguments: Vec<SExpr>) -> (expression: SExpr)
    ensures
        expression@ == applied_to(operator@, deep(arguments@)),
{
    let ghost expected = seq![SExprV::Atom(operator@)] + deep(arguments@);
    let mut items: Vec<SExpr> = Vec::new();
    items.push(SExpr::atom(operator));
    let mut arguments = arguments;
    items.append(&mut arguments);
    assert(deep(items@) =~= expected);
    SExpr::list(items)
}

// ---------------------------------------------------------------------------------------------
// Placeholders
// ---------------------------------------------------------------------------------------------
/// The number of the argument that an atom stands for: a hash and a number.
pub open spec fn placeholder_of(atom: Seq<char>) -> Option<usize> {
    match number_from(atom, 1) {
        Some(value) => if atom[0] == '#' && value <= usize::MAX {
            Some(value as usize)
        } else {
            None
        },
        None => None,
    }
}

fn parse_placeholder(atom: &String) -> (result: Option<usize>)
    ensures
        result == placeholder_of(atom@),
{
    match parse_number(atom, 1) {
        Some(value) => if atom.as_str().get_char(0) == '#' && value <= usize::MAX as u64 {
            Some(value as usize)
        } else {
            None
        },
        None => None,
    }
}

/// `expression` with arguments in place of its placeholders.
pub open spec fn filled(expression: SExprV, arguments: Seq<SExprV>) -> Result<
    SExprV,
    TranslationErrorV,
>
    decreases expression, 0int, 0int,
{
    match expression {
        SExprV::Atom(atom) => match placeholder_of(atom) {
            None => Ok(expression),
            Some(index) => if index == 0 || index > arguments.len() {
                Err(
                    TranslationErrorV::PlaceholderOutOfBounds {
                        placeholder: index,
                        arguments: arguments.len() as usize,
                    },
                )
            } else {
                Ok(arguments[index - 1])
            },
        },
        SExprV::List(items) => match items_filled(items, arguments, Seq::empty(), 0) {
            Ok(items) => Ok(SExprV::List(items)),
            Err(error) => Err(error),
        },
    }
}

/// The items from `from` on with arguments in place of their placeholders, behind `found`.
pub open spec fn items_filled(
    items: Seq<SExprV>,
    arguments: Seq<SExprV>,
    found: Seq<SExprV>,
    from: int,
) -> Result<Seq<SExprV>, TranslationErrorV>
    decreases items, 1int, items.len() - from,
{
    if !(0 <= from < items.len()) {
        Ok(found)
    } else {
        match filled(items[from], arguments) {
            Err(error) => Err(error),
            Ok(item) => items_filled(items, arguments, found.push(item), from + 1),
        }
    }
}

/// Put arguments in place of the placeholders of an expression.
pub fn fill_placeholders(expression: &SExpr, arguments: &Vec<SExpr>) -> (result: Result<
    SExpr,
    TranslationError,
>)
    ensures
        result_view(result) == filled(expression@, deep(arguments@)),
    decreases expression,
{
    broadcast use lemma_sexpr_view;

    match expression {
        SExpr::Atom(atom) => match parse_placeholder(atom) {
            None => Ok(expression.duplicate()),
            Some(index) => {
                if index == 0 || index > arguments.len() {
                    return Err(
                        TranslationError::PlaceholderOutOfBounds {
                            placeholder: index,
                            arguments: arguments.len(),
                        },
                    );
                }
                assert(deep(arguments@)[index - 1] == arguments[index - 1]@);
                Ok(arguments[index - 1].duplicate())
            },
        },
        SExpr::List(items) => match fill_items(items, arguments) {
            Ok(items) => Ok(SExpr::List(items)),
            Err(error) => Err(error),
        },
    }
}

fn fill_items(items: &Vec<SExpr>, arguments: &Vec<SExpr>) -> (result: Result<
    Vec<SExpr>,
    TranslationError,
>)
    ensures
        result_view(result) == items_filled(deep(items@), deep(arguments@), Seq::empty(), 0),
    decreases items,
{
    let mut found: Vec<SExpr> = Vec::new();
    let mut i: usize = 0;
    while i < items.len()
        invariant
            i <= items.len(),
            items_filled(deep(items@), deep(arguments@), Seq::empty(), 0) == items_filled(
                deep(items@),
                deep(arguments@),
                deep(found@),
                i as int,
            ),
        decreases items.len() - i,
    {
        assert(deep(items@)[i as int] == items[i as int]@);
        match fill_placeholders(&items[i], arguments) {
            Ok(item) => {
                found.push(item);
            },
            Err(error) => {
                return Err(error);
            },
        }
        i += 1;
    }
    Ok(found)
}

// ---------------------------------------------------------------------------------------------
// Abstraction
// ---------------------------------------------------------------------------------------------
/// The names that stand for terms without a counterpart.
#[derive(Debug, PartialEq, Eq)]
pub struct TranslationState {
    /// The terms and their names, in the order of the terms.
    pub mappings: Vec<(Term, String)>,
    /// The number of the next name.
    pub counter: u64,
}

/// The view of a [`TranslationState`].
pub struct TranslationStateV {
    pub mappings: Seq<(TermV, Seq<char>)>,
    pub counter: u64,
}

impl View for TranslationState {
    type V = TranslationStateV;

    open spec fn view(&self) -> TranslationStateV {
        TranslationStateV { mappings: deep(self.mappings@), counter: self.counter }
    }
}

/// The name with the given number.
pub open spec fn smt_name(counter: u64) -> Seq<char> {
    "SMT-"@ + decimal(counter as nat)
}

/// `state` with a name for `term`.
pub open spec fn with_abstraction(state: TranslationStateV, term: TermV) -> TranslationStateV {
    if assoc(state.mappings, term) is Some {
        state
    } else {
        TranslationStateV {
            mappings: assoc_bound::<Term, Seq<char>>(
                state.mappings,
                term,
                smt_name(state.counter),
            ),
            counter: if state.counter == u64::MAX {
                state.counter
            } else {
                (state.counter + 1) as u64
            },
        }
    }
}

/// The atom for a term without a counterpart: the name that it has, or a new one.
pub open spec fn abstraction(state: TranslationStateV, term: TermV) -> SExprV {
    match assoc(state.mappings, term) {
        Some(name) => SExprV::Atom(name),
        None => SExprV::Atom(smt_name(state.counter)),
    }
}

// ---------------------------------------------------------------------------------------------
// Terms
// ---------------------------------------------------------------------------------------------
/// A translation, and the names behind it.
pub type Translated = (Result<SExprV, TranslationErrorV>, TranslationStateV);

/// What the arguments of a term become as arguments of `operator`.
pub open spec fn application_translated(
    operator: Seq<char>,
    arguments: (Result<Seq<SExprV>, TranslationErrorV>, TranslationStateV),
) -> Translated {
    match arguments {
        (Ok(arguments), state) => (Ok(applied_to(operator, arguments)), state),
        (Err(error), state) => (Err(error), state),
    }
}

/// The translation of a term.
pub open spec fn term_translated(term: TermV, state: TranslationStateV) -> Translated
    decreases term, 1int, 0int,
{
    let abstracted = (
        Ok::<SExprV, TranslationErrorV>(abstraction(state, term)),
        with_abstraction(state, term),
    );
    match term {
        TermV::And(left, right) => if sort_of(*left) == simple_sort("SortBool"@) && sort_of(*right)
            == simple_sort("SortBool"@) {
            application_translated("and"@, children_translated(term, state, Seq::empty(), 0))
        } else {
            (Err(TranslationErrorV::NonBooleanAnd(term)), state)
        },
        TermV::Application { symbol, arguments, .. } => match symbol.attributes.smt {
            None => abstracted,
            Some(SmtTypeV::Lib(name)) => if arguments.len() == 0 {
                (Ok(SExprV::Atom(name)), state)
            } else {
                application_translated(name, children_translated(term, state, Seq::empty(), 0))
            },
            Some(SmtTypeV::Hook(SExprV::Atom(name))) => if arguments.len() == 0 {
                (Ok(SExprV::Atom(name)), state)
            } else {
                application_translated(name, children_translated(term, state, Seq::empty(), 0))
            },
            Some(SmtTypeV::Hook(template)) => match children_translated(
                term,
                state,
                Seq::empty(),
                0,
            ) {
                (Ok(arguments), state) => (filled(template, arguments), state),
                (Err(error), state) => (Err(error), state),
            },
        },
        TermV::DomainValue { sort, value } => if sort == simple_sort("SortBool"@) || sort
            == simple_sort("SortInt"@) {
            (Ok(SExprV::Atom(value)), state)
        } else {
            abstracted
        },
        _ => abstracted,
    }
}

/// The translations of the children from `from` on, behind `found`.
pub open spec fn children_translated(
    term: TermV,
    state: TranslationStateV,
    found: Seq<SExprV>,
    from: int,
) -> (Result<Seq<SExprV>, TranslationErrorV>, TranslationStateV)
    decreases term, 0int, children(term).len() - from,
{
    if 0 <= from < children(term).len() {
        proof {
            lemma_child_smaller(term, from);
        }
        match term_translated(children(term)[from], state) {
            (Ok(child), state) => children_translated(term, state, found.push(child), from + 1),
            (Err(error), state) => (Err(error), state),
        }
    } else {
        (Ok(found), state)
    }
}

// ---------------------------------------------------------------------------------------------
// Predicates
// ---------------------------------------------------------------------------------------------
/// The translation of a relation of two terms.
pub open spec fn terms_translated(
    operator: Seq<char>,
    left: TermV,
    right: TermV,
    state: TranslationStateV,
) -> Translated {
    match term_translated(left, state) {
        (Err(error), state) => (Err(error), state),
        (Ok(left), state) => match term_translated(right, state) {
            (Err(error), state) => (Err(error), state),
            (Ok(right), state) => (Ok(applied_to(operator, seq![left, right])), state),
        },
    }
}

/// The translation of a predicate.
pub open spec fn predicate_translated(predicate: PredicateV, state: TranslationStateV) -> Translated
    decreases predicate, 0int, 0int,
{
    match predicate {
        PredicateV::True => (Ok(SExprV::Atom("true"@)), state),
        PredicateV::False => (Ok(SExprV::Atom("false"@)), state),
        PredicateV::Term(term) => term_translated(term, state),
        PredicateV::Equals(left, right) => terms_translated("="@, left, right, state),
        PredicateV::Not(inner) => match predicate_translated(*inner, state) {
            (Ok(inner), state) => (Ok(applied_to("not"@, seq![inner])), state),
            (Err(error), state) => (Err(error), state),
        },
        PredicateV::And(inner) => application_translated(
            "and"@,
            predicates_translated(inner, state, Seq::empty(), 0),
        ),
        PredicateV::Or(inner) => application_translated(
            "or"@,
            predicates_translated(inner, state, Seq::empty(), 0),
        ),
        PredicateV::Implies(left, right) => match predicate_translated(*left, state) {
            (Err(error), state) => (Err(error), state),
            (Ok(left), state) => match predicate_translated(*right, state) {
                (Err(error), state) => (Err(error), state),
                (Ok(right), state) => (Ok(applied_to("=>"@, seq![left, right])), state),
            },
        },
        PredicateV::Iff(left, right) => match predicate_translated(*left, state) {
            (Err(error), state) => (Err(error), state),
            (Ok(left), state) => match predicate_translated(*right, state) {
                (Err(error), state) => (Err(error), state),
                (Ok(right), state) => (Ok(applied_to("="@, seq![left, right])), state),
            },
        },
        PredicateV::Ceil(term) => if constructor_like(term) {
            (Ok(SExprV::Atom("true"@)), state)
        } else {
            (Err(TranslationErrorV::UnsupportedPredicate("ceil"@)), state)
        },
        PredicateV::Floor(_) => (Err(TranslationErrorV::UnsupportedPredicate("floor"@)), state),
        PredicateV::In(_, _) => (Err(TranslationErrorV::UnsupportedPredicate("in"@)), state),
        PredicateV::Exists(_, _) => (
            Err(TranslationErrorV::UnsupportedPredicate("exists"@)),
            state,
        ),
        PredicateV::Forall(_, _) => (
            Err(TranslationErrorV::UnsupportedPredicate("forall"@)),
            state,
        ),
    }
}

/// The translations of the predicates from `from` on, behind `found`.
pub open spec fn predicates_translated(
    predicates: Seq<PredicateV>,
    state: TranslationStateV,
    found: Seq<SExprV>,
    from: int,
) -> (Result<Seq<SExprV>, TranslationErrorV>, TranslationStateV)
    decreases predicates, 1int, predicates.len() - from,
{
    if !(0 <= from < predicates.len()) {
        (Ok(found), state)
    } else {
        match predicate_translated(predicates[from], state) {
            (Ok(item), state) => predicates_translated(
                predicates,
                state,
                found.push(item),
                from + 1,
            ),
            (Err(error), state) => (Err(error), state),
        }
    }
}

// ---------------------------------------------------------------------------------------------
// Translation
// ---------------------------------------------------------------------------------------------
impl Default for TranslationState {
    fn default() -> (state: Self)
        ensures
            state@ == (TranslationStateV { mappings: Seq::empty(), counter: 1 }),
    {
        TranslationState::new()
    }
}

fn two(left: SExpr, right: SExpr) -> (items: Vec<SExpr>)
    ensures
        deep(items@) == seq![left@, right@],
{
    let mut items: Vec<SExpr> = Vec::new();
    items.push(left);
    items.push(right);
    assert(deep(items@) =~= seq![left@, right@]);
    items
}

impl TranslationState {
    /// No names so far; the first is number one.
    pub fn new() -> (state: Self)
        ensures
            state@ == (TranslationStateV { mappings: Seq::empty(), counter: 1 }),
    {
        TranslationState { mappings: Vec::new(), counter: 1 }
    }

    /// The name that stands for `term`.
    pub fn mapping(&self, term: &Term) -> (result: Option<&String>)
        ensures
            result.deep_view() == assoc(self@.mappings, term@),
    {
        assoc_get(&self.mappings, term)
    }

    fn abstract_term(&mut self, term: &Term) -> (expression: SExpr)
        ensures
            expression@ == abstraction(old(self)@, term@),
            final(self)@ == with_abstraction(old(self)@, term@),
    {
        if let Some(name) = assoc_get(&self.mappings, term) {
            return SExpr::atom(name.as_str());
        }
        let mut name = "SMT-".to_owned();
        name.append(decimal_text(self.counter).as_str());
        let expression = SExpr::atom(name.as_str());
        if self.counter < u64::MAX {
            self.counter = self.counter + 1;
        }
        assoc_insert(&mut self.mappings, term.duplicate(), name);
        expression
    }

    /// Translate a term. A term that the solver does not know is replaced by a name.
    #[verifier::spinoff_prover]
    pub fn translate_term(&mut self, term: &Term) -> (result: Result<SExpr, TranslationError>)
        ensures
            (result_view(result), final(self)@) == term_translated(term@, old(self)@),
        decreases term@, 2int,
    {
        proof {
            lemma_term_view(*term);
            reveal(children);
        }
        match term {
            Term::And(left, right) => {
                if left.sort().is_simple("SortBool") && right.sort().is_simple("SortBool") {
                    match self.translate_children(term) {
                        Ok(arguments) => Ok(application("and", arguments)),
                        Err(error) => Err(error),
                    }
                } else {
                    Err(TranslationError::NonBooleanAnd(term.duplicate()))
                }
            },
            Term::Application { symbol, arguments, .. } => match &symbol.attributes.smt {
                None => Ok(self.abstract_term(term)),
                Some(SmtType::Lib(name)) => self.translate_application(name, term),
                Some(SmtType::Hook(template)) => {
                    proof {
                        lemma_sexpr_view(*template);
                    }
                    if let SExpr::Atom(name) = template {
                        return self.translate_application(name, term);
                    }
                    match self.translate_children(term) {
                        Ok(arguments) => fill_placeholders(template, &arguments),
                        Err(error) => Err(error),
                    }
                },
            },
            Term::DomainValue { sort, value } => {
                if sort.is_simple("SortBool") || sort.is_simple("SortInt") {
                    Ok(SExpr::atom(value.as_str()))
                } else {
                    Ok(self.abstract_term(term))
                }
            },
            _ => Ok(self.abstract_term(term)),
        }
    }

    fn translate_application(&mut self, name: &String, term: &Term) -> (result: Result<
        SExpr,
        TranslationError,
    >)
        requires
            term@ is Application,
        ensures
            (result_view(result), final(self)@) == (if term@->Application_arguments.len() == 0 {
                (Ok(SExprV::Atom(name@)), old(self)@)
            } else {
                application_translated(
                    name@,
                    children_translated(term@, old(self)@, Seq::empty(), 0),
                )
            }),
        decreases term@, 1int,
    {
        proof {
            lemma_term_view(*term);
        }
        if let Term::Application { arguments, .. } = term {
            if arguments.len() == 0 {
                return Ok(SExpr::atom(name.as_str()));
            }
        }
        match self.translate_children(term) {
            Ok(arguments) => Ok(application(name.as_str(), arguments)),
            Err(error) => Err(error),
        }
    }

    fn translate_children(&mut self, term: &Term) -> (result: Result<Vec<SExpr>, TranslationError>)
        ensures
            (result_view(result), final(self)@) == children_translated(
                term@,
                old(self)@,
                Seq::empty(),
                0,
            ),
        decreases term@, 0int,
    {
        let kids = term.children();
        let mut found: Vec<SExpr> = Vec::new();
        let mut i: usize = 0;
        while i < kids.len()
            invariant
                i <= kids.len(),
                deep(kids@) == children(term@),
                children_translated(term@, old(self)@, Seq::empty(), 0) == children_translated(
                    term@,
                    self@,
                    deep(found@),
                    i as int,
                ),
            decreases kids.len() - i,
        {
            assert(deep(kids@)[i as int] == kids[i as int]@);
            proof {
                lemma_child_smaller(term@, i as int);
            }
            match self.translate_term(kids[i]) {
                Ok(child) => {
                    found.push(child);
                },
                Err(error) => {
                    return Err(error);
                },
            }
            i += 1;
        }
        Ok(found)
    }

    /// Translate a predicate. Quantifiers, membership and definedness cannot be translated, but for
    /// the definedness of constructor terms.
    #[verifier::spinoff_prover]
    pub fn translate_predicate(&mut self, predicate: &Predicate) -> (result: Result<
        SExpr,
        TranslationError,
    >)
        ensures
            (result_view(result), final(self)@) == predicate_translated(predicate@, old(self)@),
        decreases predicate,
    {
        proof {
            lemma_predicate_view(*predicate);
        }
        match predicate {
            Predicate::True => Ok(SExpr::atom("true")),
            Predicate::False => Ok(SExpr::atom("false")),
            Predicate::Term(term) => self.translate_term(term),
            Predicate::Equals(left, right) => {
                let left = match self.translate_term(left) {
                    Ok(left) => left,
                    Err(error) => {
                        return Err(error);
                    },
                };
                match self.translate_term(right) {
                    Ok(right) => Ok(application("=", two(left, right))),
                    Err(error) => Err(error),
                }
            },
            Predicate::Not(inner) => match self.translate_predicate(inner) {
                Ok(inner) => {
                    let ghost expected = seq![inner@];
                    let mut items: Vec<SExpr> = Vec::new();
                    items.push(inner);
                    assert(deep(items@) =~= expected);
                    Ok(application("not", items))
                },
                Err(error) => Err(error),
            },
            Predicate::And(inner) => match self.translate_predicates(inner) {
                Ok(items) => Ok(application("and", items)),
                Err(error) => Err(error),
            },
            Predicate::Or(inner) => match self.translate_predicates(inner) {
                Ok(items) => Ok(application("or", items)),
                Err(error) => Err(error),
            },
            Predicate::Implies(left, right) => {
                let left = match self.translate_predicate(left) {
                    Ok(left) => left,
                    Err(error) => {
                        return Err(error);
                    },
                };
                match self.translate_predicate(right) {
                    Ok(right) => Ok(application("=>", two(left, right))),
                    Err(error) => Err(error),
                }
            },
            Predicate::Iff(left, right) => {
                let left = match self.translate_predicate(left) {
                    Ok(left) => left,
                    Err(error) => {
                        return Err(error);
                    },
                };
                match self.translate_predicate(right) {
                    Ok(right) => Ok(application("=", two(left, right))),
                    Err(error) => Err(error),
                }
            },
            Predicate::Ceil(term) => if term.is_constructor_like() {
                Ok(SExpr::atom("true"))
            } else {
                Err(TranslationError::UnsupportedPredicate("ceil"))
            },
            Predicate::Floor(_) => Err(TranslationError::UnsupportedPredicate("floor")),
            Predicate::In(_, _) => Err(TranslationError::UnsupportedPredicate("in")),
            Predicate::Exists(_, _) => Err(TranslationError::UnsupportedPredicate("exists")),
            Predicate::Forall(_, _) => Err(TranslationError::UnsupportedPredicate("forall")),
        }
    }

    fn translate_predicates(&mut self, predicates: &Vec<Predicate>) -> (result: Result<
        Vec<SExpr>,
        TranslationError,
    >)
        ensures
            (result_view(result), final(self)@) == predicates_translated(
                deep(predicates@),
                old(self)@,
                Seq::empty(),
                0,
            ),
        decreases predicates,
    {
        let mut found: Vec<SExpr> = Vec::new();
        let mut i: usize = 0;
        while i < predicates.len()
            invariant
                i <= predicates.len(),
                predicates_translated(deep(predicates@), old(self)@, Seq::empty(), 0)
                    == predicates_translated(
                    deep(predicates@),
                    self@,
                    deep(found@),
                    i as int,
                ),
            decreases predicates.len() - i,
        {
            assert(deep(predicates@)[i as int] == predicates[i as int]@);
            match self.translate_predicate(&predicates[i]) {
                Ok(item) => {
                    found.push(item);
                },
                Err(error) => {
                    return Err(error);
                },
            }
            i += 1;
        }
        Ok(found)
    }
}

// ---------------------------------------------------------------------------------------------
// Laws
// ---------------------------------------------------------------------------------------------
/// Whether `later` has every name that `earlier` has.
pub open spec fn keeps_names(earlier: TranslationStateV, later: TranslationStateV) -> bool {
    forall|term: TermV|
        #![trigger assoc(later.mappings, term)]
        assoc(earlier.mappings, term) is Some ==> assoc(later.mappings, term) == assoc(
            earlier.mappings,
            term,
        )
}

/// A name, once given, stays: to abstract a term keeps the names of all others, and gives the term
/// the name that stands in the translation.
pub proof fn law_abstraction_is_stable(state: TranslationStateV, term: TermV)
    ensures
        keeps_names(state, with_abstraction(state, term)),
        assoc(with_abstraction(state, term).mappings, term) is Some,
        abstraction(state, term) == SExprV::Atom(
            assoc(with_abstraction(state, term).mappings, term)->0,
        ),
        abstraction(with_abstraction(state, term), term) == abstraction(state, term),
{
    let later = with_abstraction(state, term);
    if assoc(state.mappings, term) is None {
        assert forall|other: TermV|
            #![trigger assoc(later.mappings, other)]
            assoc(later.mappings, other) == (if other == term {
                Some(smt_name(state.counter))
            } else {
                assoc(state.mappings, other)
            }) by {
            law_bound::<Term, Seq<char>>(state.mappings, term, smt_name(state.counter), other);
        }
    }
}

/// Whether the names in use are numbered below the counter, and no two terms share one.
pub open spec fn names_in_order(state: TranslationStateV) -> bool {
    &&& forall|term: TermV|
        #![trigger assoc(state.mappings, term)]
        assoc(state.mappings, term) is Some ==> exists|k: u64|
            k < state.counter && assoc(state.mappings, term)->0 == #[trigger] smt_name(k)
    &&& forall|left: TermV, right: TermV|
        #![trigger assoc(state.mappings, left), assoc(state.mappings, right)]
        assoc(state.mappings, left) is Some && assoc(state.mappings, left) == assoc(
            state.mappings,
            right,
        ) ==> left == right
}

pub proof fn lemma_smt_name_injective(left: u64, right: u64)
    requires
        smt_name(left) == smt_name(right),
    ensures
        left == right,
{
    let prefix = "SMT-"@;
    assert(smt_name(left).subrange(prefix.len() as int, smt_name(left).len() as int) =~= decimal(
        left as nat,
    ));
    assert(smt_name(right).subrange(prefix.len() as int, smt_name(right).len() as int)
        =~= decimal(right as nat));
    if left != right {
        lemma_decimal_injective(left as nat, right as nat);
    }
}

/// Different terms get different names, as long as there are numbers left.
pub proof fn law_abstraction_is_injective(state: TranslationStateV, term: TermV)
    requires
        names_in_order(state),
        state.counter < u64::MAX,
    ensures
        names_in_order(with_abstraction(state, term)),
{
    let later = with_abstraction(state, term);
    if assoc(state.mappings, term) is None {
        let name = smt_name(state.counter);
        assert forall|other: TermV|
            #![trigger assoc(later.mappings, other)]
            assoc(later.mappings, other) == (if other == term {
                Some(name)
            } else {
                assoc(state.mappings, other)
            }) by {
            law_bound::<Term, Seq<char>>(state.mappings, term, name, other);
        }
        assert forall|other: TermV|
            #![trigger assoc(later.mappings, other)]
            assoc(later.mappings, other) is Some implies exists|k: u64|
            k < later.counter && assoc(later.mappings, other)->0 == #[trigger] smt_name(k) by {
            if other == term {
                assert(assoc(later.mappings, other)->0 == smt_name(state.counter));
            } else {
                assert(assoc(state.mappings, other) is Some);
                let k = choose|k: u64|
                    k < state.counter && assoc(state.mappings, other)->0 == #[trigger] smt_name(k);
                assert(assoc(later.mappings, other)->0 == smt_name(k));
            }
        }
        assert forall|left: TermV, right: TermV|
            #![trigger assoc(later.mappings, left), assoc(later.mappings, right)]
            assoc(later.mappings, left) is Some && assoc(later.mappings, left) == assoc(
                later.mappings,
                right,
            ) implies left == right by {
            if left != right && (left == term || right == term) {
                let old = if left == term {
                    right
                } else {
                    left
                };
                assert(assoc(state.mappings, old) is Some);
                let k = choose|k: u64|
                    k < state.counter && assoc(state.mappings, old)->0 == #[trigger] smt_name(k);
                assert(smt_name(k) == smt_name(state.counter));
                lemma_smt_name_injective(k, state.counter);
            } else if left != right {
                assert(assoc(state.mappings, left) == assoc(later.mappings, left));
                assert(assoc(state.mappings, right) == assoc(later.mappings, right));
            }
        }
    }
}

/// At the start no names are in use.
pub proof fn law_start_in_order()
    ensures
        names_in_order(TranslationStateV { mappings: Seq::empty(), counter: 1 }),
{
}

/// A translation keeps the names that were given before it.
pub proof fn law_translation_keeps_names(term: TermV, state: TranslationStateV)
    ensures
        keeps_names(state, term_translated(term, state).1),
    decreases term, 1int, 0int,
{
    law_abstraction_is_stable(state, term);
    lemma_children_keep_names(term, state, Seq::empty(), 0);
}

pub proof fn lemma_children_keep_names(
    term: TermV,
    state: TranslationStateV,
    found: Seq<SExprV>,
    from: int,
)
    ensures
        keeps_names(state, children_translated(term, state, found, from).1),
    decreases term, 0int, children(term).len() - from,
{
    if 0 <= from < children(term).len() {
        lemma_child_smaller(term, from);
        let child = children(term)[from];
        law_translation_keeps_names(child, state);
        match term_translated(child, state) {
            (Ok(item), next) => {
                lemma_children_keep_names(term, next, found.push(item), from + 1);
                lemma_keeps_names_transitive(
                    state,
                    next,
                    children_translated(term, next, found.push(item), from + 1).1,
                );
            },
            _ => {},
        }
    }
}

pub proof fn lemma_keeps_names_transitive(
    first: TranslationStateV,
    second: TranslationStateV,
    third: TranslationStateV,
)
    requires
        keeps_names(first, second),
        keeps_names(second, third),
    ensures
        keeps_names(first, third),
{
    assert forall|term: TermV|
        #![trigger assoc(third.mappings, term)]
        assoc(first.mappings, term) is Some implies assoc(third.mappings, term) == assoc(
        first.mappings,
        term,
    ) by {
        assert(assoc(second.mappings, term) == assoc(first.mappings, term));
    }
}

/// The same for predicates.
pub proof fn law_predicate_translation_keeps_names(predicate: PredicateV, state: TranslationStateV)
    ensures
        keeps_names(state, predicate_translated(predicate, state).1),
    decreases predicate, 0int, 0int,
{
    match predicate {
        PredicateV::Term(term) => {
            law_translation_keeps_names(term, state);
        },
        PredicateV::Equals(left, right) => {
            let next = term_translated(left, state).1;
            law_translation_keeps_names(left, state);
            law_translation_keeps_names(right, next);
            lemma_keeps_names_transitive(state, next, term_translated(right, next).1);
        },
        PredicateV::Not(inner) => {
            law_predicate_translation_keeps_names(*inner, state);
        },
        PredicateV::And(inner) => {
            lemma_predicates_keep_names(inner, state, Seq::empty(), 0);
        },
        PredicateV::Or(inner) => {
            lemma_predicates_keep_names(inner, state, Seq::empty(), 0);
        },
        PredicateV::Implies(left, right) => {
            let next = predicate_translated(*left, state).1;
            law_predicate_translation_keeps_names(*left, state);
            law_predicate_translation_keeps_names(*right, next);
            lemma_keeps_names_transitive(state, next, predicate_translated(*right, next).1);
        },
        PredicateV::Iff(left, right) => {
            let next = predicate_translated(*left, state).1;
            law_predicate_translation_keeps_names(*left, state);
            law_predicate_translation_keeps_names(*right, next);
            lemma_keeps_names_transitive(state, next, predicate_translated(*right, next).1);
        },
        _ => {},
    }
}

pub proof fn lemma_predicates_keep_names(
    predicates: Seq<PredicateV>,
    state: TranslationStateV,
    found: Seq<SExprV>,
    from: int,
)
    ensures
        keeps_names(state, predicates_translated(predicates, state, found, from).1),
    decreases predicates, 1int, predicates.len() - from,
{
    if 0 <= from < predicates.len() {
        law_predicate_translation_keeps_names(predicates[from], state);
        match predicate_translated(predicates[from], state) {
            (Ok(item), next) => {
                lemma_predicates_keep_names(predicates, next, found.push(item), from + 1);
                lemma_keeps_names_transitive(
                    state,
                    next,
                    predicates_translated(predicates, next, found.push(item), from + 1).1,
                );
            },
            _ => {},
        }
    }
}

} // verus!
