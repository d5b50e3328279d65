//! The syntax of Kore.

use vstd::prelude::*;
use crate::model::{deep, group_deep, Value};
use crate::term::{Sort, SortV};

verus! {

broadcast use group_deep;

/// A variable of Kore.
#[derive(Debug, PartialEq, Eq)]
pub struct KoreVariable {
    pub name: String,
    pub sort: Sort,
}

/// The view of [`KoreVariable`].
pub struct KoreVariableV {
    pub name: Seq<char>,
    pub sort: SortV,
}

impl View for KoreVariable {
    type V = KoreVariableV;

    open spec fn view(&self) -> KoreVariableV {
        KoreVariableV {
            name: self.name@,
            sort: self.sort@,
        }
    }
}

impl DeepView for KoreVariable {
    type V = KoreVariableV;

    open spec fn deep_view(&self) -> KoreVariableV {
        self@
    }
}

impl Value for KoreVariable {
    fn duplicate(&self) -> (copy: Self) {
        KoreVariable {
            name: self.name.clone(),
            sort: self.sort.duplicate(),
        }
    }

    fn equals(&self, other: &Self) -> (same: bool) {
        self.name == other.name
            && self.sort.equals(&other.sort)
    }
}

/// A symbol of Kore with the sorts that it is applied to.
#[derive(Debug, PartialEq, Eq)]
pub struct KoreSymbol {
    pub name: String,
    pub sorts: Vec<Sort>,
}

/// The view of [`KoreSymbol`].
pub struct KoreSymbolV {
    pub name: Seq<char>,
    pub sorts: Seq<SortV>,
}

impl View for KoreSymbol {
    type V = KoreSymbolV;

    open spec fn view(&self) -> KoreSymbolV {
        KoreSymbolV {
            name: self.name@,
            sorts: deep(self.sorts@),
        }
    }
}

impl DeepView for KoreSymbol {
    type V = KoreSymbolV;

    open spec fn deep_view(&self) -> KoreSymbolV {
        self@
    }
}

impl Value for KoreSymbol {
    fn duplicate(&self) -> (copy: Self) {
        KoreSymbol {
            name: self.name.clone(),
            sorts: self.sorts.duplicate(),
        }
    }

    fn equals(&self, other: &Self) -> (same: bool) {
        self.name == other.name
            && self.sorts.equals(&other.sorts)
    }
}

/// A pattern of Kore, without the sorts of its connectives.
#[derive(Debug, PartialEq, Eq)]
pub enum KorePattern {
    /// A string.
    Text(String),
    Variable(KoreVariable),
    Application { symbol: KoreSymbol, arguments: Vec<KorePattern> },
    /// A symbol between the arguments, grouped from the left or from the right.
    AssociativeApplication { from_left: bool, symbol: KoreSymbol, arguments: Vec<KorePattern> },
    DomainValue { sort: Sort, value: String },
    Top,
    Bottom,
    And { arguments: Vec<KorePattern> },
    Or { arguments: Vec<KorePattern> },
    Not { argument: Box<KorePattern> },
    Implies { left: Box<KorePattern>, right: Box<KorePattern> },
    Iff { left: Box<KorePattern>, right: Box<KorePattern> },
    Exists { variable: KoreVariable, body: Box<KorePattern> },
    Forall { variable: KoreVariable, body: Box<KorePattern> },
    Ceil { argument: Box<KorePattern> },
    Floor { argument: Box<KorePattern> },
    Equals { left: Box<KorePattern>, right: Box<KorePattern> },
    In { left: Box<KorePattern>, right: Box<KorePattern> },
    Next { argument: Box<KorePattern> },
    Rewrites { left: Box<KorePattern>, right: Box<KorePattern> },
    Mu { variable: KoreVariable, body: Box<KorePattern> },
    Nu { variable: KoreVariable, body: Box<KorePattern> },
}

/// The view of a [`KorePattern`].
pub enum KorePatternV {
    Text(Seq<char>),
    Variable(KoreVariableV),
    Application { symbol: KoreSymbolV, arguments: Seq<KorePatternV> },
    AssociativeApplication { from_left: bool, symbol: KoreSymbolV, arguments: Seq<KorePatternV> },
    DomainValue { sort: SortV, value: Seq<char> },
    Top,
    Bottom,
    And { arguments: Seq<KorePatternV> },
    Or { arguments: Seq<KorePatternV> },
    Not { argument: Box<KorePatternV> },
    Implies { left: Box<KorePatternV>, right: Box<KorePatternV> },
    Iff { left: Box<KorePatternV>, right: Box<KorePatternV> },
    Exists { variable: KoreVariableV, body: Box<KorePatternV> },
    Forall { variable: KoreVariableV, body: Box<KorePatternV> },
    Ceil { argument: Box<KorePatternV> },
    Floor { argument: Box<KorePatternV> },
    Equals { left: Box<KorePatternV>, right: Box<KorePatternV> },
    In { left: Box<KorePatternV>, right: Box<KorePatternV> },
    Next { argument: Box<KorePatternV> },
    Rewrites { left: Box<KorePatternV>, right: Box<KorePatternV> },
    Mu { variable: KoreVariableV, body: Box<KorePatternV> },
    Nu { variable: KoreVariableV, body: Box<KorePatternV> },
}

/// The view of a pattern.
#[verifier::opaque]
pub open spec fn kore_view(pattern: KorePattern) -> KorePatternV
    decreases pattern,
{
    match pattern {
        KorePattern::Text(first) => KorePatternV::Text(first@),
        KorePattern::Variable(first) => KorePatternV::Variable(first@),
        KorePattern::Application { symbol, arguments } => KorePatternV::Application {
            symbol: symbol@,
            arguments: Seq::new(
                arguments@.len(),
                |i: int|
                    if 0 <= i < arguments@.len() {
                        kore_view(arguments@[i])
                    } else {
                        arbitrary()
                    },
            ),
        },
        KorePattern::AssociativeApplication {
            from_left,
            symbol,
            arguments,
        } => KorePatternV::AssociativeApplication {
            from_left: from_left,
            symbol: symbol@,
            arguments: Seq::new(
                arguments@.len(),
                |i: int|
                    if 0 <= i < arguments@.len() {
                        kore_view(arguments@[i])
                    } else {
                        arbitrary()
                    },
            ),
        },
        KorePattern::DomainValue { sort, value } => KorePatternV::DomainValue {
            sort: sort@,
            value: value@,
        },
        KorePattern::Top => KorePatternV::Top,
        KorePattern::Bottom => KorePatternV::Bottom,
        KorePattern::And { arguments } => KorePatternV::And {
            arguments: Seq::new(
                arguments@.len(),
                |i: int|
                    if 0 <= i < arguments@.len() {
                        kore_view(arguments@[i])
                    } else {
                        arbitrary()
                    },
            ),
        },
        KorePattern::Or { arguments } => KorePatternV::Or {
            arguments: Seq::new(
                arguments@.len(),
                |i: int|
                    if 0 <= i < arguments@.len() {
                        kore_view(arguments@[i])
                    } else {
                        arbitrary()
                    },
            ),
        },
        KorePattern::Not { argument } => KorePatternV::Not {
            argument: Box::new(kore_view(*argument)),
        },
        KorePattern::Implies { left, right } => KorePatternV::Implies {
            left: Box::new(kore_view(*left)),
            right: Box::new(kore_view(*right)),
        },
        KorePattern::Iff { left, right } => KorePatternV::Iff {
            left: Box::new(kore_view(*left)),
            right: Box::new(kore_view(*right)),
        },
        KorePattern::Exists { variable, body } => KorePatternV::Exists {
            variable: variable@,
            body: Box::new(kore_view(*body)),
        },
        KorePattern::Forall { variable, body } => KorePatternV::Forall {
            variable: variable@,
            body: Box::new(kore_view(*body)),
        },
        KorePattern::Ceil { argument } => KorePatternV::Ceil {
            argument: Box::new(kore_view(*argument)),
        },
        KorePattern::Floor { argument } => KorePatternV::Floor {
            argument: Box::new(kore_view(*argument)),
        },
        KorePattern::Equals { left, right } => KorePatternV::Equals {
            left: Box::new(kore_view(*left)),
            right: Box::new(kore_view(*right)),
        },
        KorePattern::In { left, right } => KorePatternV::In {
            left: Box::new(kore_view(*left)),
            right: Box::new(kore_view(*right)),
        },
        KorePattern::Next { argument } => KorePatternV::Next {
            argument: Box::new(kore_view(*argument)),
        },
        KorePattern::Rewrites { left, right } => KorePatternV::Rewrites {
            left: Box::new(kore_view(*left)),
            right: Box::new(kore_view(*right)),
        },
        KorePattern::Mu { variable, body } => KorePatternV::Mu {
            variable: variable@,
            body: Box::new(kore_view(*body)),
        },
        KorePattern::Nu { variable, body } => KorePatternV::Nu {
            variable: variable@,
            body: Box::new(kore_view(*body)),
        },
    }
}

impl View for KorePattern {
    type V = KorePatternV;

    open spec fn view(&self) -> KorePatternV {
        kore_view(*self)
    }
}

impl DeepView for KorePattern {
    type V = KorePatternV;

    open spec fn deep_view(&self) -> KorePatternV {
        self@
    }
}

pub broadcast proof fn lemma_kore_view(pattern: KorePattern)
    ensures
        #[trigger] kore_view(pattern) == (match pattern {
            KorePattern::Text(first) => KorePatternV::Text(first@),
            KorePattern::Variable(first) => KorePatternV::Variable(first@),
            KorePattern::Application { symbol, arguments } => KorePatternV::Application {
                symbol: symbol@,
                arguments: deep(arguments@),
            },
            KorePattern::AssociativeApplication {
                from_left,
                symbol,
                arguments,
            } => KorePatternV::AssociativeApplication {
                from_left: from_left,
                symbol: symbol@,
                arguments: deep(arguments@),
            },
            KorePattern::DomainValue { sort, value } => KorePatternV::DomainValue {
                sort: sort@,
                value: value@,
            },
            KorePattern::Top => KorePatternV::Top,
            KorePattern::Bottom => KorePatternV::Bottom,
            KorePattern::And { arguments } => KorePatternV::And { arguments: deep(arguments@) },
            KorePattern::Or { arguments } => KorePatternV::Or { arguments: deep(arguments@) },
            KorePattern::Not { argument } => KorePatternV::Not { argument: Box::new(argument@) },
            KorePattern::Implies { left, right } => KorePatternV::Implies {
                left: Box::new(left@),
                right: Box::new(right@),
            },
            KorePattern::Iff { left, right } => KorePatternV::Iff {
                left: Box::new(left@),
                right: Box::new(right@),
            },
            KorePattern::Exists { variable, body } => KorePatternV::Exists {
                variable: variable@,
                body: Box::new(body@),
            },
            KorePattern::Forall { variable, body } => KorePatternV::Forall {
                variable: variable@,
                body: Box::new(body@),
            },
            KorePattern::Ceil { argument } => KorePatternV::Ceil { argument: Box::new(argument@) },
            KorePattern::Floor { argument } => KorePatternV::Floor {
                argument: Box::new(argument@),
            },
            KorePattern::Equals { left, right } => KorePatternV::Equals {
                left: Box::new(left@),
                right: Box::new(right@),
            },
            KorePattern::In { left, right } => KorePatternV::In {
                left: Box::new(left@),
                right: Box::new(right@),
            },
            KorePattern::Next { argument } => KorePatternV::Next { argument: Box::new(argument@) },
            KorePattern::Rewrites { left, right } => KorePatternV::Rewrites {
                left: Box::new(left@),
                right: Box::new(right@),
            },
            KorePattern::Mu { variable, body } => KorePatternV::Mu {
                variable: variable@,
                body: Box::new(body@),
            },
            KorePattern::Nu { variable, body } => KorePatternV::Nu {
                variable: variable@,
                body: Box::new(body@),
            },
        }),
{
    reveal(kore_view);
    match pattern {
        KorePattern::Application { symbol, arguments } => {
            assert(kore_view(pattern)->Application_arguments =~= deep(arguments@));
        },
        KorePattern::AssociativeApplication { from_left, symbol, arguments } => {
            assert(kore_view(pattern)->AssociativeApplication_arguments =~= deep(arguments@));
        },
        KorePattern::And { arguments } => {
            assert(kore_view(pattern)->And_arguments =~= deep(arguments@));
        },
        KorePattern::Or { arguments } => {
            assert(kore_view(pattern)->Or_arguments =~= deep(arguments@));
        },
        _ => {},
    }
}

fn duplicate_items(items: &Vec<KorePattern>) -> (copies: Vec<KorePattern>)
    ensures
        deep(copies@) == deep(items@),
    decreases items,
{
    let mut copies: Vec<KorePattern> = Vec::new();
    let mut i: usize = 0;
    while i < items.len()
        invariant
            i <= items.len(),
            copies.len() == i,
            forall|j: int| 0 <= j < i ==> copies[j]@ == items[j]@,
        decreases items.len() - i,
    {
        copies.push(items[i].duplicate());
        i += 1;
    }
    assert(deep(copies@) =~= deep(items@));
    copies
}

fn equal_items(left: &Vec<KorePattern>, right: &Vec<KorePattern>) -> (same: bool)
    ensures
        same == (deep(left@) == deep(right@)),
    decreases left,
{
    if left.len() != right.len() {
        return false;
    }
    let mut i: usize = 0;
    while i < left.len()
        invariant
            i <= left.len(),
            left.len() == right.len(),
            forall|j: int| 0 <= j < i ==> left[j]@ == right[j]@,
        decreases left.len() - i,
    {
        if !left[i].equals(&right[i]) {
            assert(deep(left@)[i as int] != deep(right@)[i as int]);
            return false;
        }
        i += 1;
    }
    assert(deep(left@) =~= deep(right@));
    true
}

impl Value for KorePattern {
    fn duplicate(&self) -> (copy: Self)
        decreases self,
    {
        let copy = match self {
            KorePattern::Text(first) => KorePattern::Text(first.duplicate()),
            KorePattern::Variable(first) => KorePattern::Variable(first.duplicate()),
            KorePattern::Application { symbol, arguments } => KorePattern::Application {
                symbol: symbol.duplicate(),
                arguments: duplicate_items(arguments),
            },
            KorePattern::AssociativeApplication {
                from_left,
                symbol,
                arguments,
            } => KorePattern::AssociativeApplication {
                from_left: *from_left,
                symbol: symbol.duplicate(),
                arguments: duplicate_items(arguments),
            },
            KorePattern::DomainValue { sort, value } => KorePattern::DomainValue {
                sort: sort.duplicate(),
                value: value.duplicate(),
            },
            KorePattern::Top => KorePattern::Top,
            KorePattern::Bottom => KorePattern::Bottom,
            KorePattern::And { arguments } => KorePattern::And {
                arguments: duplicate_items(arguments),
            },
            KorePattern::Or { arguments } => KorePattern::Or {
                arguments: duplicate_items(arguments),
            },
            KorePattern::Not { argument } => KorePattern::Not {
                argument: Box::new(argument.duplicate()),
            },
            KorePattern::Implies { left, right } => KorePattern::Implies {
                left: Box::new(left.duplicate()),
                right: Box::new(right.duplicate()),
            },
            KorePattern::Iff { left, right } => KorePattern::Iff {
                left: Box::new(left.duplicate()),
                right: Box::new(right.duplicate()),
            },
            KorePattern::Exists { variable, body } => KorePattern::Exists {
                variable: variable.duplicate(),
                body: Box::new(body.duplicate()),
            },
            KorePattern::Forall { variable, body } => KorePattern::Forall {
                variable: variable.duplicate(),
                body: Box::new(body.duplicate()),
            },
            KorePattern::Ceil { argument } => KorePattern::Ceil {
                argument: Box::new(argument.duplicate()),
            },
            KorePattern::Floor { argument } => KorePattern::Floor {
                argument: Box::new(argument.duplicate()),
            },
            KorePattern::Equals { left, right } => KorePattern::Equals {
                left: Box::new(left.duplicate()),
                right: Box::new(right.duplicate()),
            },
            KorePattern::In { left, right } => KorePattern::In {
                left: Box::new(left.duplicate()),
                right: Box::new(right.duplicate()),
            },
            KorePattern::Next { argument } => KorePattern::Next {
                argument: Box::new(argument.duplicate()),
            },
            KorePattern::Rewrites { left, right } => KorePattern::Rewrites {
                left: Box::new(left.duplicate()),
                right: Box::new(right.duplicate()),
            },
            KorePattern::Mu { variable, body } => KorePattern::Mu {
                variable: variable.duplicate(),
                body: Box::new(body.duplicate()),
            },
            KorePattern::Nu { variable, body } => KorePattern::Nu {
                variable: variable.duplicate(),
                body: Box::new(body.duplicate()),
            },
        };
        proof {
            lemma_kore_view(*self);
            lemma_kore_view(copy);
        }
        copy
    }

    fn equals(&self, other: &Self) -> (same: bool)
        decreases self,
    {
        proof {
            lemma_kore_view(*self);
            lemma_kore_view(*other);
        }
        match (self, other) {
            (KorePattern::Text(first), KorePattern::Text(other_first)) => first.equals(other_first),
            (KorePattern::Variable(first), KorePattern::Variable(other_first)) => first.equals(
                other_first,
            ),
            (
                KorePattern::Application { symbol, arguments },
                KorePattern::Application { symbol: other_symbol, arguments: other_arguments },
            ) => symbol.equals(other_symbol) && equal_items(arguments, other_arguments),
            (
                KorePattern::AssociativeApplication { from_left, symbol, arguments },
                KorePattern::AssociativeApplication {
                    from_left: other_from_left,
                    symbol: other_symbol,
                    arguments: other_arguments,
                },
            ) => *from_left == *other_from_left
                && symbol.equals(other_symbol)
                && equal_items(arguments, other_arguments),
            (
                KorePattern::DomainValue { sort, value },
                KorePattern::DomainValue { sort: other_sort, value: other_value },
            ) => sort.equals(other_sort) && value.equals(other_value),
            (KorePattern::Top, KorePattern::Top) => true,
            (KorePattern::Bottom, KorePattern::Bottom) => true,
            (
                KorePattern::And { arguments },
                KorePattern::And { arguments: other_arguments },
            ) => equal_items(arguments, other_arguments),
            (
                KorePattern::Or { arguments },
                KorePattern::Or { arguments: other_arguments },
            ) => equal_items(arguments, other_arguments),
            (
                KorePattern::Not { argument },
                KorePattern::Not { argument: other_argument },
            ) => argument.equals(other_argument),
            (
                KorePattern::Implies { left, right },
                KorePattern::Implies { left: other_left, right: other_right },
            ) => left.equals(other_left) && right.equals(other_right),
            (
                KorePattern::Iff { left, right },
                KorePattern::Iff { left: other_left, right: other_right },
            ) => left.equals(other_left) && right.equals(other_right),
            (
                KorePattern::Exists { variable, body },
                KorePattern::Exists { variable: other_variable, body: other_body },
            ) => variable.equals(other_variable) && body.equals(other_body),
            (
                KorePattern::Forall { variable, body },
                KorePattern::Forall { variable: other_variable, body: other_body },
            ) => variable.equals(other_variable) && body.equals(other_body),
            (
                KorePattern::Ceil { argument },
                KorePattern::Ceil { argument: other_argument },
            ) => argument.equals(other_argument),
            (
                KorePattern::Floor { argument },
                KorePattern::Floor { argument: other_argument },
            ) => argument.equals(other_argument),
            (
                KorePattern::Equals { left, right },
                KorePattern::Equals { left: other_left, right: other_right },
            ) => left.equals(other_left) && right.equals(other_right),
            (
                KorePattern::In { left, right },
                KorePattern::In { left: other_left, right: other_right },
            ) => left.equals(other_left) && right.equals(other_right),
            (
                KorePattern::Next { argument },
                KorePattern::Next { argument: other_argument },
            ) => argument.equals(other_argument),
            (
                KorePattern::Rewrites { left, right },
                KorePattern::Rewrites { left: other_left, right: other_right },
            ) => left.equals(other_left) && right.equals(other_right),
            (
                KorePattern::Mu { variable, body },
                KorePattern::Mu { variable: other_variable, body: other_body },
            ) => variable.equals(other_variable) && body.equals(other_body),
            (
                KorePattern::Nu { variable, body },
                KorePattern::Nu { variable: other_variable, body: other_body },
            ) => variable.equals(other_variable) && body.equals(other_body),
            _ => false,
        }
    }
}

/// The attributes of a sentence.
#[derive(Debug, PartialEq, Eq)]
pub struct KoreAttributes {
    pub patterns: Vec<KorePattern>,
}

/// The view of [`KoreAttributes`].
pub struct KoreAttributesV {
    pub patterns: Seq<KorePatternV>,
}

impl View for KoreAttributes {
    type V = KoreAttributesV;

    open spec fn view(&self) -> KoreAttributesV {
        KoreAttributesV {
            patterns: deep(self.patterns@),
        }
    }
}

impl DeepView for KoreAttributes {
    type V = KoreAttributesV;

    open spec fn deep_view(&self) -> KoreAttributesV {
        self@
    }
}

impl Value for KoreAttributes {
    fn duplicate(&self) -> (copy: Self) {
        KoreAttributes {
            patterns: self.patterns.duplicate(),
        }
    }

    fn equals(&self, other: &Self) -> (same: bool) {
        self.patterns.equals(&other.patterns)
    }
}

/// A sentence of a module.
#[derive(Debug, PartialEq, Eq)]
pub enum KoreSentence {
    Import { module: String, attributes: KoreAttributes },
    SortDeclaration {
        name: String,
        parameters: Vec<String>,
        hooked: bool,
        attributes: KoreAttributes,
    },
    SymbolDeclaration {
        name: String,
        parameters: Vec<String>,
        arguments: Vec<Sort>,
        result: Sort,
        hooked: bool,
        attributes: KoreAttributes,
    },
    AliasDeclaration {
        name: String,
        parameters: Vec<String>,
        left: KorePattern,
        right: KorePattern,
        attributes: KoreAttributes,
    },
    Axiom { parameters: Vec<String>, pattern: KorePattern, attributes: KoreAttributes },
    Claim { parameters: Vec<String>, pattern: KorePattern, attributes: KoreAttributes },
}

/// The view of [`KoreSentence`].
pub enum KoreSentenceV {
    Import { module: Seq<char>, attributes: KoreAttributesV },
    SortDeclaration {
        name: Seq<char>,
        parameters: Seq<Seq<char>>,
        hooked: bool,
        attributes: KoreAttributesV,
    },
    SymbolDeclaration {
        name: Seq<char>,
        parameters: Seq<Seq<char>>,
        arguments: Seq<SortV>,
        result: SortV,
        hooked: bool,
        attributes: KoreAttributesV,
    },
    AliasDeclaration {
        name: Seq<char>,
        parameters: Seq<Seq<char>>,
        left: KorePatternV,
        right: KorePatternV,
        attributes: KoreAttributesV,
    },
    Axiom { parameters: Seq<Seq<char>>, pattern: KorePatternV, attributes: KoreAttributesV },
    Claim { parameters: Seq<Seq<char>>, pattern: KorePatternV, attributes: KoreAttributesV },
}

impl View for KoreSentence {
    type V = KoreSentenceV;

    open spec fn view(&self) -> KoreSentenceV {
        match self {
            KoreSentence::Import { module, attributes } => KoreSentenceV::Import {
                module: module@,
                attributes: attributes@,
            },
            KoreSentence::SortDeclaration {
                name,
                parameters,
                hooked,
                attributes,
            } => KoreSentenceV::SortDeclaration {
                name: name@,
                parameters: deep(parameters@),
                hooked: *hooked,
                attributes: attributes@,
            },
            KoreSentence::SymbolDeclaration {
                name,
                parameters,
                arguments,
                result,
                hooked,
                attributes,
            } => KoreSentenceV::SymbolDeclaration {
                name: name@,
                parameters: deep(parameters@),
                arguments: deep(arguments@),
                result: result@,
                hooked: *hooked,
                attributes: attributes@,
            },
            KoreSentence::AliasDeclaration {
                name,
                parameters,
                left,
                right,
                attributes,
            } => KoreSentenceV::AliasDeclaration {
                name: name@,
                parameters: deep(parameters@),
                left: left@,
                right: right@,
                attributes: attributes@,
            },
            KoreSentence::Axiom { parameters, pattern, attributes } => KoreSentenceV::Axiom {
                parameters: deep(parameters@),
                pattern: pattern@,
                attributes: attributes@,
            },
            KoreSentence::Claim { parameters, pattern, attributes } => KoreSentenceV::Claim {
                parameters: deep(parameters@),
                pattern: pattern@,
                attributes: attributes@,
            },
        }
    }
}

impl DeepView for KoreSentence {
    type V = KoreSentenceV;

    open spec fn deep_view(&self) -> KoreSentenceV {
        self@
    }
}

impl Value for KoreSentence {
    fn duplicate(&self) -> (copy: Self) {
        match self {
            KoreSentence::Import { module, attributes } => KoreSentence::Import {
                module: module.clone(),
                attributes: attributes.duplicate(),
            },
            KoreSentence::SortDeclaration {
                name,
                parameters,
                hooked,
                attributes,
            } => KoreSentence::SortDeclaration {
                name: name.clone(),
                parameters: parameters.duplicate(),
                hooked: *hooked,
                attributes: attributes.duplicate(),
            },
            KoreSentence::SymbolDeclaration {
                name,
                parameters,
                arguments,
                result,
                hooked,
                attributes,
            } => KoreSentence::SymbolDeclaration {
                name: name.clone(),
                parameters: parameters.duplicate(),
                arguments: arguments.duplicate(),
                result: result.duplicate(),
                hooked: *hooked,
                attributes: attributes.duplicate(),
            },
            KoreSentence::AliasDeclaration {
                name,
                parameters,
                left,
                right,
                attributes,
            } => KoreSentence::AliasDeclaration {
                name: name.clone(),
                parameters: parameters.duplicate(),
                left: left.duplicate(),
                right: right.duplicate(),
                attributes: attributes.duplicate(),
            },
            KoreSentence::Axiom { parameters, pattern, attributes } => KoreSentence::Axiom {
                parameters: parameters.duplicate(),
                pattern: pattern.duplicate(),
                attributes: attributes.duplicate(),
            },
            KoreSentence::Claim { parameters, pattern, attributes } => KoreSentence::Claim {
                parameters: parameters.duplicate(),
                pattern: pattern.duplicate(),
                attributes: attributes.duplicate(),
            },
        }
    }

    fn equals(&self, other: &Self) -> (same: bool) {
        match (self, other) {
            (
                KoreSentence::Import { module, attributes },
                KoreSentence::Import { module: other_module, attributes: other_attributes },
            ) => *module == *other_module && attributes.equals(other_attributes),
            (
                KoreSentence::SortDeclaration { name, parameters, hooked, attributes },
                KoreSentence::SortDeclaration {
                    name: other_name,
                    parameters: other_parameters,
                    hooked: other_hooked,
                    attributes: other_attributes,
                },
            ) => *name == *other_name
                && parameters.equals(other_parameters)
                && *hooked == *other_hooked
                && attributes.equals(other_attributes),
            (
                KoreSentence::SymbolDeclaration {
                    name,
                    parameters,
                    arguments,
                    result,
                    hooked,
                    attributes,
                },
                KoreSentence::SymbolDeclaration {
                    name: other_name,
                    parameters: other_parameters,
                    arguments: other_arguments,
                    result: other_result,
                    hooked: other_hooked,
                    attributes: other_attributes,
                },
            ) => *name == *other_name
                && parameters.equals(other_parameters)
                && arguments.equals(other_arguments)
                && result.equals(other_result)
                && *hooked == *other_hooked
                && attributes.equals(other_attributes),
            (
                KoreSentence::AliasDeclaration { name, parameters, left, right, attributes },
                KoreSentence::AliasDeclaration {
                    name: other_name,
                    parameters: other_parameters,
                    left: other_left,
                    right: other_right,
                    attributes: other_attributes,
                },
            ) => *name == *other_name
                && parameters.equals(other_parameters)
                && left.equals(other_left)
                && right.equals(other_right)
                && attributes.equals(other_attributes),
            (
                KoreSentence::Axiom { parameters, pattern, attributes },
                KoreSentence::Axiom {
                    parameters: other_parameters,
                    pattern: other_pattern,
                    attributes: other_attributes,
                },
            ) => parameters.equals(other_parameters)
                && pattern.equals(other_pattern)
                && attributes.equals(other_attributes),
            (
                KoreSentence::Claim { parameters, pattern, attributes },
                KoreSentence::Claim {
                    parameters: other_parameters,
                    pattern: other_pattern,
                    attributes: other_attributes,
                },
            ) => parameters.equals(other_parameters)
                && pattern.equals(other_pattern)
                && attributes.equals(other_attributes),
            _ => false,
        }
    }
}

/// A module.
#[derive(Debug, PartialEq, Eq)]
pub struct KoreModule {
    pub name: String,
    pub sentences: Vec<KoreSentence>,
    pub attributes: KoreAttributes,
}

/// The view of [`KoreModule`].
pub struct KoreModuleV {
    pub name: Seq<char>,
    pub sentences: Seq<KoreSentenceV>,
    pub attributes: KoreAttributesV,
}

impl View for KoreModule {
    type V = KoreModuleV;

    open spec fn view(&self) -> KoreModuleV {
        KoreModuleV {
            name: self.name@,
            sentences: deep(self.sentences@),
            attributes: self.attributes@,
        }
    }
}

impl DeepView for KoreModule {
    type V = KoreModuleV;

    open spec fn deep_view(&self) -> KoreModuleV {
        self@
    }
}

impl Value for KoreModule {
    fn duplicate(&self) -> (copy: Self) {
        KoreModule {
            name: self.name.clone(),
            sentences: self.sentences.duplicate(),
            attributes: self.attributes.duplicate(),
        }
    }

    fn equals(&self, other: &Self) -> (same: bool) {
        self.name == other.name
            && self.sentences.equals(&other.sentences)
            && self.attributes.equals(&other.attributes)
    }
}

/// A definition: its modules.
#[derive(Debug, PartialEq, Eq)]
pub struct KoreDefinition {
    pub modules: Vec<KoreModule>,
    pub attributes: KoreAttributes,
}

/// The view of [`KoreDefinition`].
pub struct KoreDefinitionV {
    pub modules: Seq<KoreModuleV>,
    pub attributes: KoreAttributesV,
}

impl View for KoreDefinition {
    type V = KoreDefinitionV;

    open spec fn view(&self) -> KoreDefinitionV {
        KoreDefinitionV {
            modules: deep(self.modules@),
            attributes: self.attributes@,
        }
    }
}

impl DeepView for KoreDefinition {
    type V = KoreDefinitionV;

    open spec fn deep_view(&self) -> KoreDefinitionV {
        self@
    }
}

impl Value for KoreDefinition {
    fn duplicate(&self) -> (copy: Self) {
        KoreDefinition {
            modules: self.modules.duplicate(),
            attributes: self.attributes.duplicate(),
        }
    }

    fn equals(&self, other: &Self) -> (same: bool) {
        self.modules.equals(&other.modules)
            && self.attributes.equals(&other.attributes)
    }
}

} // verus!
