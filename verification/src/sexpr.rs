//! S-expressions.

use vstd::prelude::*;
use crate::model::{deep, group_deep, Value};

verus! {

broadcast use group_deep;

/// An S-expression.
#[derive(Debug, PartialEq, Eq)]
pub enum SExpr {
    Atom(String),
    List(Vec<SExpr>),
}

/// The view of an [`SExpr`].
pub enum SExprV {
    Atom(Seq<char>),
    List(Seq<SExprV>),
}

/// The view of an expression.
#[verifier::opaque]
pub open spec fn sexpr_view(expression: SExpr) -> SExprV
    decreases expression,
{
    match expression {
        SExpr::Atom(name) => SExprV::Atom(name@),
        SExpr::List(items) => SExprV::List(
            Seq::new(
                items@.len(),
                |i: int|
                    if 0 <= i < items@.len() {
                        sexpr_view(items@[i])
                    } else {
                        arbitrary()
                    },
            ),
        ),
    }
}

impl View for SExpr {
    type V = SExprV;

    open spec fn view(&self) -> SExprV {
        sexpr_view(*self)
    }
}

impl DeepView for SExpr {
    type V = SExprV;

    open spec fn deep_view(&self) -> SExprV {
        self@
    }
}

pub broadcast proof fn lemma_sexpr_view(expression: SExpr)
    ensures
        #[trigger] sexpr_view(expression) == (match expression {
            SExpr::Atom(name) => SExprV::Atom(name@),
            SExpr::List(items) => SExprV::List(deep(items@)),
        }),
{
    reveal(sexpr_view);
    if let SExpr::List(items) = expression {
        assert(sexpr_view(expression)->List_0 =~= deep(items@));
    }
}

fn duplicate_items(items: &Vec<SExpr>) -> (copies: Vec<SExpr>)
    ensures
        deep(copies@) == deep(items@),
    decreases items,
{
    let mut copies: Vec<SExpr> = Vec::new();
    let mut i: usize = 0;
    while i < items.len()
        invariant
            i <= items.len(),
            copies.len() == i,
            forall|j: int| 0 <= j < i ==> copies[j]@ == items[j]@,
        decreases items.len() - i,
    {
        copies.push(items[i].duplicate());
        i += 1;
    }
    assert(deep(copies@) =~= deep(items@));
    copies
}

fn equal_items(left: &Vec<SExpr>, right: &Vec<SExpr>) -> (same: bool)
    ensures
        same == (deep(left@) == deep(right@)),
    decreases left,
{
    if left.len() != right.len() {
        assert(deep(left@).len() != deep(right@).len());
        return false;
    }
    let mut i: usize = 0;
    while i < left.len()
        invariant
            i <= left.len(),
            left.len() == right.len(),
            forall|j: int| 0 <= j < i ==> left[j]@ == right[j]@,
        decreases left.len() - i,
    {
        if !left[i].equals(&right[i]) {
            assert(deep(left@)[i as int] != deep(right@)[i as int]);
            return false;
        }
        i += 1;
    }
    assert(deep(left@) =~= deep(right@));
    true
}

impl Value for SExpr {
    fn duplicate(&self) -> (copy: Self)
        decreases self,
    {
        broadcast use lemma_sexpr_view;

        match self {
            SExpr::Atom(name) => SExpr::Atom(name.clone()),
            SExpr::List(items) => SExpr::List(duplicate_items(items)),
        }
    }

    fn equals(&self, other: &Self) -> (same: bool)
        decreases self,
    {
        broadcast use lemma_sexpr_view;

        match (self, other) {
            (SExpr::Atom(left), SExpr::Atom(right)) => *left == *right,
            (SExpr::List(left), SExpr::List(right)) => equal_items(left, right),
            _ => false,
        }
    }
}

/// How a symbol is written for an SMT solver.
#[derive(Debug, PartialEq, Eq)]
pub enum SmtType {
    /// A function of that name.
    Lib(String),
    /// A template: an operator's name, or a list in which `#n` stands for an argument.
    Hook(SExpr),
}

/// The view of an [`SmtType`].
pub enum SmtTypeV {
    Lib(Seq<char>),
    Hook(SExprV),
}

impl View for SmtType {
    type V = SmtTypeV;

    open spec fn view(&self) -> SmtTypeV {
        match self {
            SmtType::Lib(name) => SmtTypeV::Lib(name@),
            SmtType::Hook(expression) => SmtTypeV::Hook(expression@),
        }
    }
}

impl DeepView for SmtType {
    type V = SmtTypeV;

    open spec fn deep_view(&self) -> SmtTypeV {
        self@
    }
}

impl Value for SmtType {
    fn duplicate(&self) -> (copy: Self) {
        match self {
            SmtType::Lib(name) => SmtType::Lib(name.clone()),
            SmtType::Hook(expression) => SmtType::Hook(expression.duplicate()),
        }
    }

    fn equals(&self, other: &Self) -> (same: bool) {
        match (self, other) {
            (SmtType::Lib(left), SmtType::Lib(right)) => *left == *right,
            (SmtType::Hook(left), SmtType::Hook(right)) => left.equals(right),
            _ => false,
        }
    }
}

} // verus!
