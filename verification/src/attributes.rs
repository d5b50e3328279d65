//! The attributes of axioms.

use vstd::prelude::*;
use crate::assoc::{assoc, assoc_bound, assoc_get, assoc_insert};
use crate::kernel::result_view;
use crate::kore::{lemma_kore_view, KoreAttributes, KoreAttributesV, KorePattern, KorePatternV};
use crate::model::{deep, group_deep, Value};
use crate::numbers::{number_from, parse_number};
use crate::ops::Keyed;
use crate::rule::{Concreteness, ConcretenessV, ConstraintKind, RuleAttributes, RuleAttributesV};
use crate::term::{lemma_sort_view, Sort, SortV};
use crate::text::is_text;

verus! {

broadcast use group_deep;

/// Why an axiom is none of those that the frontend writes.
#[derive(Debug, PartialEq, Eq)]
pub enum AxiomError {
    MalformedRewrite,
    UnsupportedAliasRewrite(String),
    MalformedEquation,
    MalformedArgumentBinder,
    Unexpected,
    ConflictingPriorities(Vec<&'static str>),
    InvalidPriority(String),
    InvalidConcreteness(String),
    ConcretenessOverlap(String),
    MalformedAttribute(String),
}

/// The view of [`AxiomError`].
pub enum AxiomErrorV {
    MalformedRewrite,
    UnsupportedAliasRewrite(Seq<char>),
    MalformedEquation,
    MalformedArgumentBinder,
    Unexpected,
    ConflictingPriorities(Seq<Seq<char>>),
    InvalidPriority(Seq<char>),
    InvalidConcreteness(Seq<char>),
    ConcretenessOverlap(Seq<char>),
    MalformedAttribute(Seq<char>),
}

impl View for AxiomError {
    type V = AxiomErrorV;

    open spec fn view(&self) -> AxiomErrorV {
        match self {
            AxiomError::MalformedRewrite => AxiomErrorV::MalformedRewrite,
            AxiomError::UnsupportedAliasRewrite(first) => AxiomErrorV::UnsupportedAliasRewrite(
                first@,
            ),
            AxiomError::MalformedEquation => AxiomErrorV::MalformedEquation,
            AxiomError::MalformedArgumentBinder => AxiomErrorV::MalformedArgumentBinder,
            AxiomError::Unexpected => AxiomErrorV::Unexpected,
            AxiomError::ConflictingPriorities(first) => AxiomErrorV::ConflictingPriorities(
                deep(first@),
            ),
            AxiomError::InvalidPriority(first) => AxiomErrorV::InvalidPriority(first@),
            AxiomError::InvalidConcreteness(first) => AxiomErrorV::InvalidConcreteness(first@),
            AxiomError::ConcretenessOverlap(first) => AxiomErrorV::ConcretenessOverlap(first@),
            AxiomError::MalformedAttribute(first) => AxiomErrorV::MalformedAttribute(first@),
        }
    }
}

impl DeepView for AxiomError {
    type V = AxiomErrorV;

    open spec fn deep_view(&self) -> AxiomErrorV {
        self@
    }
}

impl Value for AxiomError {
    fn duplicate(&self) -> (copy: Self) {
        match self {
            AxiomError::MalformedRewrite => AxiomError::MalformedRewrite,
            AxiomError::UnsupportedAliasRewrite(first) => AxiomError::UnsupportedAliasRewrite(
                first.clone(),
            ),
            AxiomError::MalformedEquation => AxiomError::MalformedEquation,
            AxiomError::MalformedArgumentBinder => AxiomError::MalformedArgumentBinder,
            AxiomError::Unexpected => AxiomError::Unexpected,
            AxiomError::ConflictingPriorities(first) => AxiomError::ConflictingPriorities(
                first.duplicate(),
            ),
            AxiomError::InvalidPriority(first) => AxiomError::InvalidPriority(first.clone()),
            AxiomError::InvalidConcreteness(first) => AxiomError::InvalidConcreteness(
                first.clone(),
            ),
            AxiomError::ConcretenessOverlap(first) => AxiomError::ConcretenessOverlap(
                first.clone(),
            ),
            AxiomError::MalformedAttribute(first) => AxiomError::MalformedAttribute(first.clone()),
        }
    }

    fn equals(&self, other: &Self) -> (same: bool) {
        match (self, other) {
            (AxiomError::MalformedRewrite, AxiomError::MalformedRewrite) => true,
            (
                AxiomError::UnsupportedAliasRewrite(first),
                AxiomError::UnsupportedAliasRewrite(other_first),
            ) => *first == *other_first,
            (AxiomError::MalformedEquation, AxiomError::MalformedEquation) => true,
            (AxiomError::MalformedArgumentBinder, AxiomError::MalformedArgumentBinder) => true,
            (AxiomError::Unexpected, AxiomError::Unexpected) => true,
            (
                AxiomError::ConflictingPriorities(first),
                AxiomError::ConflictingPriorities(other_first),
            ) => first.equals(other_first),
            (
                AxiomError::InvalidPriority(first),
                AxiomError::InvalidPriority(other_first),
            ) => *first == *other_first,
            (
                AxiomError::InvalidConcreteness(first),
                AxiomError::InvalidConcreteness(other_first),
            ) => *first == *other_first,
            (
                AxiomError::ConcretenessOverlap(first),
                AxiomError::ConcretenessOverlap(other_first),
            ) => *first == *other_first,
            (
                AxiomError::MalformedAttribute(first),
                AxiomError::MalformedAttribute(other_first),
            ) => *first == *other_first,
            _ => false,
        }
    }
}

// ---------------------------------------------------------------------------------------------
// Attributes
// ---------------------------------------------------------------------------------------------
/// The arguments of an application of `name`.
pub open spec fn applied_as(pattern: KorePatternV, name: Seq<char>) -> Option<Seq<KorePatternV>> {
    match pattern {
        KorePatternV::Application { symbol, arguments } => if symbol.name == name {
            Some(arguments)
        } else {
            None
        },
        _ => None,
    }
}

/// The arguments of the first attribute `name` from position `from` on.
pub open spec fn attribute_from(
    patterns: Seq<KorePatternV>,
    name: Seq<char>,
    from: int,
) -> Option<Seq<KorePatternV>>
    decreases patterns.len() - from,
{
    if from >= patterns.len() {
        None
    } else if applied_as(patterns[from], name) is Some {
        applied_as(patterns[from], name)
    } else {
        attribute_from(patterns, name, from + 1)
    }
}

/// The arguments of the attribute `name`.
pub open spec fn attribute_of(attributes: KoreAttributesV, name: Seq<char>) -> Option<
    Seq<KorePatternV>,
> {
    attribute_from(attributes.patterns, name, 0)
}

/// Whether there is an attribute `name`.
pub open spec fn is_marked(attributes: KoreAttributesV, name: Seq<char>) -> bool {
    attribute_of(attributes, name) is Some
}

/// The text of the attribute `name`: its only argument.
pub open spec fn attribute_text(attributes: KoreAttributesV, name: Seq<char>) -> Result<
    Option<Seq<char>>,
    AxiomErrorV,
> {
    match attribute_of(attributes, name) {
        None => Ok(None),
        Some(arguments) => if arguments.len() == 1 && arguments[0] is Text {
            Ok(Some(arguments[0]->Text_0))
        } else {
            Err(AxiomErrorV::MalformedAttribute(name))
        },
    }
}

/// The same, where the argument may be missing.
pub open spec fn attribute_text_or_empty(attributes: KoreAttributesV, name: Seq<char>) -> Result<
    Option<Seq<char>>,
    AxiomErrorV,
> {
    match attribute_of(attributes, name) {
        Some(arguments) => if arguments.len() == 0 {
            Ok(Some(Seq::empty()))
        } else {
            attribute_text(attributes, name)
        },
        None => Ok(None),
    }
}

/// The arguments of the attribute `name`.
pub(crate) fn attribute_application<'a>(attributes: &'a KoreAttributes, name: &str) -> (result:
    Option<&'a Vec<KorePattern>>)
    ensures
        result.deep_view() == attribute_of(attributes@, name@),
{
    let patterns = &attributes.patterns;
    let mut i: usize = 0;
    while i < patterns.len()
        invariant
            i <= patterns.len(),
            attributes@.patterns == deep(patterns@),
            attribute_of(attributes@, name@) == attribute_from(deep(patterns@), name@, i as int),
        decreases patterns.len() - i,
    {
        assert(deep(patterns@)[i as int] == patterns[i as int]@);
        proof {
            lemma_kore_view(patterns[i as int]);
        }
        if let KorePattern::Application { symbol, arguments } = &patterns[i] {
            if is_text(&symbol.name, name) {
                return Some(arguments);
            }
        }
        i += 1;
    }
    None
}

/// Whether there is an attribute `name`.
pub(crate) fn has_attribute(attributes: &KoreAttributes, name: &str) -> (result: bool)
    ensures
        result == is_marked(attributes@, name@),
{
    attribute_application(attributes, name).is_some()
}

fn attribute_string(attributes: &KoreAttributes, name: &str) -> (result: Result<
    Option<String>,
    AxiomError,
>)
    ensures
        result_view(result) == attribute_text(attributes@, name@),
{
    match attribute_application(attributes, name) {
        None => Ok(None),
        Some(arguments) => {
            if arguments.len() == 1 {
                assert(deep(arguments@)[0] == arguments[0]@);
                proof {
                    lemma_kore_view(arguments[0]);
                }
                if let KorePattern::Text(value) = &arguments[0] {
                    return Ok(Some(value.duplicate()));
                }
            }
            Err(AxiomError::MalformedAttribute(name.to_owned()))
        },
    }
}

fn attribute_string_or_empty(attributes: &KoreAttributes, name: &str) -> (result: Result<
    Option<String>,
    AxiomError,
>)
    ensures
        result_view(result) == attribute_text_or_empty(attributes@, name@),
{
    match attribute_application(attributes, name) {
        None => Ok(None),
        Some(arguments) => {
            if arguments.len() == 0 {
                Ok(Some(String::new()))
            } else {
                attribute_string(attributes, name)
            }
        },
    }
}

// ---------------------------------------------------------------------------------------------
// Priorities
// ---------------------------------------------------------------------------------------------
/// The priority of a rule for which none is given.
pub const DEFAULT_PRIORITY: u8 = 50;

/// The number that a priority is.
pub open spec fn priority_number(text: Seq<char>) -> Result<u8, AxiomErrorV> {
    if text.len() == 0 {
        Ok(DEFAULT_PRIORITY)
    } else {
        match number_from(text, 0) {
            Some(value) => if value <= 255 {
                Ok(value as u8)
            } else {
                Err(AxiomErrorV::InvalidPriority(text))
            },
            None => Err(AxiomErrorV::InvalidPriority(text)),
        }
    }
}

/// The attributes that give a priority.
pub open spec fn priority_attributes(
    priority: Option<Seq<char>>,
    simplification: Option<Seq<char>>,
    owise: bool,
) -> Seq<Seq<char>> {
    let first = if priority is Some {
        seq!["priority"@]
    } else {
        Seq::empty()
    };
    let second = if simplification is Some {
        first.push("simplification"@)
    } else {
        first
    };
    if owise {
        second.push("owise"@)
    } else {
        second
    }
}

/// The priority of a rule. Only one attribute may give it.
pub open spec fn priority_of(attributes: KoreAttributesV) -> Result<u8, AxiomErrorV> {
    match (
        attribute_text(attributes, "priority"@),
        attribute_text_or_empty(attributes, "simplification"@),
    ) {
        (Err(error), _) => Err(error),
        (_, Err(error)) => Err(error),
        (Ok(priority), Ok(simplification)) => {
            let owise = is_marked(attributes, "owise"@);
            let given = priority_attributes(priority, simplification, owise);
            if given.len() > 1 {
                Err(AxiomErrorV::ConflictingPriorities(given))
            } else if owise {
                Ok(255u8)
            } else {
                match (priority, simplification) {
                    (Some(text), _) => priority_number(text),
                    (None, Some(text)) => priority_number(text),
                    (None, None) => Ok(DEFAULT_PRIORITY),
                }
            }
        },
    }
}

fn parse_priority_number(text: String) -> (result: Result<u8, AxiomError>)
    ensures
        result_view(result) == priority_number(text@),
{
    if text.as_str().is_empty() {
        return Ok(DEFAULT_PRIORITY);
    }
    match parse_number(&text, 0) {
        Some(value) => if value <= 255 {
            Ok(value as u8)
        } else {
            Err(AxiomError::InvalidPriority(text))
        },
        None => Err(AxiomError::InvalidPriority(text)),
    }
}

#[verifier::spinoff_prover]
fn parse_priority(attributes: &KoreAttributes) -> (result: Result<u8, AxiomError>)
    ensures
        result_view(result) == priority_of(attributes@),
{
    let priority = match attribute_string(attributes, "priority") {
        Ok(priority) => priority,
        Err(error) => {
            return Err(error);
        },
    };
    let simplification = match attribute_string_or_empty(attributes, "simplification") {
        Ok(simplification) => simplification,
        Err(error) => {
            return Err(error);
        },
    };
    let owise = has_attribute(attributes, "owise");
    let mut given: Vec<&'static str> = Vec::new();
    if priority.is_some() {
        given.push("priority");
    }
    if simplification.is_some() {
        given.push("simplification");
    }
    if owise {
        given.push("owise");
    }
    assert(deep(given@) =~= priority_attributes(
        priority.deep_view(),
        simplification.deep_view(),
        owise,
    ));
    if given.len() > 1 {
        return Err(AxiomError::ConflictingPriorities(given));
    }
    if owise {
        return Ok(255);
    }
    match priority {
        Some(text) => parse_priority_number(text),
        None => match simplification {
            Some(text) => parse_priority_number(text),
            None => Ok(DEFAULT_PRIORITY),
        },
    }
}

// ---------------------------------------------------------------------------------------------
// Constraints on variables
// ---------------------------------------------------------------------------------------------
/// A variable that an attribute names: its name and its sort, with a colon between them.
pub open spec fn constrained_text(pattern: KorePatternV, name: Seq<char>) -> Result<
    Seq<char>,
    AxiomErrorV,
> {
    match pattern {
        KorePatternV::Variable(variable) => match variable.sort {
            SortV::Application { name: sort, arguments } => if arguments.len() == 0 {
                Ok(variable.name + ":"@ + sort)
            } else {
                Err(AxiomErrorV::MalformedAttribute(name))
            },
            _ => Err(AxiomErrorV::MalformedAttribute(name)),
        },
        KorePatternV::Text(text) => Ok(text),
        _ => Err(AxiomErrorV::MalformedAttribute(name)),
    }
}

/// The variables that the arguments from `from` on name, behind `found`.
pub open spec fn constrained_texts(
    arguments: Seq<KorePatternV>,
    name: Seq<char>,
    found: Seq<Seq<char>>,
    from: int,
) -> Result<Seq<Seq<char>>, AxiomErrorV>
    decreases arguments.len() - from,
{
    if from >= arguments.len() {
        Ok(found)
    } else {
        match constrained_text(arguments[from], name) {
            Ok(text) => constrained_texts(arguments, name, found.push(text), from + 1),
            Err(error) => Err(error),
        }
    }
}

/// The variables that the attribute `name` names.
pub open spec fn constrained_variables(attributes: KoreAttributesV, name: Seq<char>) -> Result<
    Option<Seq<Seq<char>>>,
    AxiomErrorV,
> {
    match attribute_of(attributes, name) {
        None => Ok(None),
        Some(arguments) => match constrained_texts(arguments, name, Seq::empty(), 0) {
            Ok(texts) => Ok(Some(texts)),
            Err(error) => Err(error),
        },
    }
}

fn constrained_string(pattern: &KorePattern, name: &str) -> (result: Result<String, AxiomError>)
    ensures
        result_view(result) == constrained_text(pattern@, name@),
{
    proof {
        lemma_kore_view(*pattern);
    }
    match pattern {
        KorePattern::Variable(variable) => {
            proof {
                lemma_sort_view(variable.sort);
            }
            if let Sort::Application { name: sort, arguments } = &variable.sort {
                if arguments.len() == 0 {
                    let mut text = variable.name.duplicate();
                    text.append(":");
                    text.append(sort.as_str());
                    return Ok(text);
                }
            }
            Err(AxiomError::MalformedAttribute(name.to_owned()))
        },
        KorePattern::Text(text) => Ok(text.duplicate()),
        _ => Err(AxiomError::MalformedAttribute(name.to_owned())),
    }
}

fn attribute_constrained_variables(attributes: &KoreAttributes, name: &str) -> (result: Result<
    Option<Vec<String>>,
    AxiomError,
>)
    ensures
        result_view(result) == constrained_variables(attributes@, name@),
{
    let arguments = match attribute_application(attributes, name) {
        Some(arguments) => arguments,
        None => {
            return Ok(None);
        },
    };
    let mut found: Vec<String> = Vec::new();
    let mut i: usize = 0;
    while i < arguments.len()
        invariant
            i <= arguments.len(),
            attribute_of(attributes@, name@) == Some(deep(arguments@)),
            constrained_texts(deep(arguments@), name@, Seq::empty(), 0) == constrained_texts(
                deep(arguments@),
                name@,
                deep(found@),
                i as int,
            ),
        decreases arguments.len() - i,
    {
        assert(deep(arguments@)[i as int] == arguments[i as int]@);
        match constrained_string(&arguments[i], name) {
            Ok(text) => {
                found.push(text);
            },
            Err(error) => {
                return Err(error);
            },
        }
        i += 1;
    }
    Ok(Some(found))
}

/// The position of the first colon from `from` on.
pub open spec fn colon_from(text: Seq<char>, from: int) -> Option<int>
    decreases text.len() - from,
{
    if from >= text.len() {
        None
    } else if text[from] == ':' {
        Some(from)
    } else {
        colon_from(text, from + 1)
    }
}

/// A text in two parts, at its first colon.
pub open spec fn split_at_colon(text: Seq<char>) -> Option<(Seq<char>, Seq<char>)> {
    match colon_from(text, 0) {
        Some(i) => Some((text.subrange(0, i), text.subrange(i + 1, text.len() as int))),
        None => None,
    }
}

/// Variables, by name and sort, with the terms that they may be bound to.
pub type ConstrainedV = Seq<((Seq<char>, Seq<char>), ConstraintKind)>;

/// `found` with the variables from `from` on.
pub open spec fn constrained_by(
    texts: Seq<Seq<char>>,
    kind: ConstraintKind,
    found: ConstrainedV,
    from: int,
) -> Result<ConstrainedV, AxiomErrorV>
    decreases texts.len() - from,
{
    if from >= texts.len() {
        Ok(found)
    } else {
        match split_at_colon(texts[from]) {
            None => Err(AxiomErrorV::InvalidConcreteness(texts[from])),
            Some(key) => constrained_by(
                texts,
                kind,
                assoc_bound::<(String, String), ConstraintKind>(found, key, kind),
                from + 1,
            ),
        }
    }
}

/// The first variable from `from` on that `other` holds too.
pub open spec fn shared_from(first: ConstrainedV, other: ConstrainedV, from: int) -> Option<
    (Seq<char>, Seq<char>),
>
    decreases first.len() - from,
{
    if from >= first.len() {
        None
    } else if assoc(other, first[from].0) is Some {
        Some(first[from].0)
    } else {
        shared_from(first, other, from + 1)
    }
}

/// `first` with the entries of `other` from `from` on.
pub open spec fn merged_constraints(
    first: ConstrainedV,
    other: ConstrainedV,
    from: int,
) -> ConstrainedV
    decreases other.len() - from,
{
    if from >= other.len() {
        first
    } else {
        merged_constraints(
            assoc_bound::<(String, String), ConstraintKind>(
                first,
                other[from].0,
                other[from].1,
            ),
            other,
            from + 1,
        )
    }
}

/// The constraints on the variables that two lists name, each list of its kind.
pub open spec fn listed_constraints(concrete: Seq<Seq<char>>, symbolic: Seq<Seq<char>>) -> Result<
    ConcretenessV,
    AxiomErrorV,
> {
    match (
        constrained_by(concrete, ConstraintKind::Concrete, Seq::empty(), 0),
        constrained_by(symbolic, ConstraintKind::Symbolic, Seq::empty(), 0),
    ) {
        (Err(error), _) => Err(error),
        (_, Err(error)) => Err(error),
        (Ok(concrete), Ok(symbolic)) => match shared_from(concrete, symbolic, 0) {
            Some((name, sort)) => Err(AxiomErrorV::ConcretenessOverlap(name + ":"@ + sort)),
            None => Ok(ConcretenessV::Listed(merged_constraints(concrete, symbolic, 0))),
        },
    }
}

/// The constraints on the variables of a rule. An attribute without arguments speaks of all
/// variables, so that no other may stand beside it.
pub open spec fn concreteness_of(attributes: KoreAttributesV) -> Result<ConcretenessV, AxiomErrorV> {
    match (
        constrained_variables(attributes, "concrete"@),
        constrained_variables(attributes, "symbolic"@),
    ) {
        (Err(error), _) => Err(error),
        (_, Err(error)) => Err(error),
        (Ok(concrete), Ok(symbolic)) => match (concrete, symbolic) {
            (None, None) => Ok(ConcretenessV::Unconstrained),
            (Some(concrete), Some(symbolic)) => if concrete.len() == 0 {
                Err(AxiomErrorV::ConcretenessOverlap("all concrete"@))
            } else if symbolic.len() == 0 {
                Err(AxiomErrorV::ConcretenessOverlap("all symbolic"@))
            } else {
                listed_constraints(concrete, symbolic)
            },
            (Some(concrete), None) => if concrete.len() == 0 {
                Ok(ConcretenessV::All(ConstraintKind::Concrete))
            } else {
                listed_constraints(concrete, Seq::empty())
            },
            (None, Some(symbolic)) => if symbolic.len() == 0 {
                Ok(ConcretenessV::All(ConstraintKind::Symbolic))
            } else {
                listed_constraints(Seq::empty(), symbolic)
            },
        },
    }
}

fn split_once_colon(text: &String) -> (result: Option<(String, String)>)
    ensures
        result.deep_view() == split_at_colon(text@),
{
    let length: usize = text.as_str().unicode_len();
    let mut i: usize = 0;
    while i < length
        invariant
            i <= length,
            length == text@.len(),
            colon_from(text@, 0) == colon_from(text@, i as int),
        decreases length - i,
    {
        if text.as_str().get_char(i) == ':' {
            return Some(
                (
                    text.as_str().substring_char(0, i).to_owned(),
                    text.as_str().substring_char(i + 1, length).to_owned(),
                ),
            );
        }
        i += 1;
    }
    None
}

fn parse_constrained_variables(texts: &Vec<String>, kind: ConstraintKind) -> (result: Result<
    Vec<((String, String), ConstraintKind)>,
    AxiomError,
>)
    ensures
        result_view(result) == constrained_by(deep(texts@), kind, Seq::empty(), 0),
{
    let mut found: Vec<((String, String), ConstraintKind)> = Vec::new();
    let mut i: usize = 0;
    while i < texts.len()
        invariant
            i <= texts.len(),
            constrained_by(deep(texts@), kind, Seq::empty(), 0) == constrained_by(
                deep(texts@),
                kind,
                deep(found@),
                i as int,
            ),
        decreases texts.len() - i,
    {
        assert(deep(texts@)[i as int] == texts[i as int]@);
        match split_once_colon(&texts[i]) {
            Some(key) => {
                assoc_insert(&mut found, key, kind);
            },
            None => {
                return Err(AxiomError::InvalidConcreteness(texts[i].duplicate()));
            },
        }
        i += 1;
    }
    Ok(found)
}

fn find_shared(
    first: &Vec<((String, String), ConstraintKind)>,
    other: &Vec<((String, String), ConstraintKind)>,
) -> (result: Option<(String, String)>)
    ensures
        result.deep_view() == shared_from(deep(first@), deep(other@), 0),
{
    let mut i: usize = 0;
    while i < first.len()
        invariant
            i <= first.len(),
            shared_from(deep(first@), deep(other@), 0) == shared_from(
                deep(first@),
                deep(other@),
                i as int,
            ),
        decreases first.len() - i,
    {
        assert(deep(first@)[i as int] == first[i as int].deep_view());
        if assoc_get(other, &first[i].0).is_some() {
            return Some(first[i].0.duplicate());
        }
        i += 1;
    }
    None
}

fn merge_constraints(
    first: Vec<((String, String), ConstraintKind)>,
    other: &Vec<((String, String), ConstraintKind)>,
) -> (result: Vec<((String, String), ConstraintKind)>)
    ensures
        deep(result@) == merged_constraints(deep(first@), deep(other@), 0),
{
    let mut all = first;
    let mut i: usize = 0;
    while i < other.len()
        invariant
            i <= other.len(),
            merged_constraints(deep(first@), deep(other@), 0) == merged_constraints(
                deep(all@),
                deep(other@),
                i as int,
            ),
        decreases other.len() - i,
    {
        assert(deep(other@)[i as int] == other[i as int].deep_view());
        assoc_insert(&mut all, other[i].0.duplicate(), other[i].1);
        i += 1;
    }
    all
}

fn list_constraints(concrete: &Vec<String>, symbolic: &Vec<String>) -> (result: Result<
    Concreteness,
    AxiomError,
>)
    ensures
        result_view(result) == listed_constraints(deep(concrete@), deep(symbolic@)),
{
    let concrete = match parse_constrained_variables(concrete, ConstraintKind::Concrete) {
        Ok(concrete) => concrete,
        Err(error) => {
            return Err(error);
        },
    };
    let symbolic = match parse_constrained_variables(symbolic, ConstraintKind::Symbolic) {
        Ok(symbolic) => symbolic,
        Err(error) => {
            return Err(error);
        },
    };
    if let Some((name, sort)) = find_shared(&concrete, &symbolic) {
        let mut text = name;
        text.append(":");
        text.append(sort.as_str());
        return Err(AxiomError::ConcretenessOverlap(text));
    }
    Ok(Concreteness::Listed(merge_constraints(concrete, &symbolic)))
}

#[verifier::spinoff_prover]
fn parse_concreteness(attributes: &KoreAttributes) -> (result: Result<Concreteness, AxiomError>)
    ensures
        result_view(result) == concreteness_of(attributes@),
{
    let concrete = match attribute_constrained_variables(attributes, "concrete") {
        Ok(concrete) => concrete,
        Err(error) => {
            return Err(error);
        },
    };
    let symbolic = match attribute_constrained_variables(attributes, "symbolic") {
        Ok(symbolic) => symbolic,
        Err(error) => {
            return Err(error);
        },
    };
    let none: Vec<String> = Vec::new();
    match (concrete, symbolic) {
        (None, None) => Ok(Concreteness::Unconstrained),
        (Some(concrete), Some(symbolic)) => {
            if concrete.len() == 0 {
                Err(AxiomError::ConcretenessOverlap("all concrete".to_owned()))
            } else if symbolic.len() == 0 {
                Err(AxiomError::ConcretenessOverlap("all symbolic".to_owned()))
            } else {
                list_constraints(&concrete, &symbolic)
            }
        },
        (Some(concrete), None) => {
            if concrete.len() == 0 {
                Ok(Concreteness::All(ConstraintKind::Concrete))
            } else {
                list_constraints(&concrete, &none)
            }
        },
        (None, Some(symbolic)) => {
            if symbolic.len() == 0 {
                Ok(Concreteness::All(ConstraintKind::Symbolic))
            } else {
                list_constraints(&none, &symbolic)
            }
        },
    }
}

// ---------------------------------------------------------------------------------------------
// The attributes of a rule
// ---------------------------------------------------------------------------------------------
/// The identity of a rule: the one that the frontend gives it, else its label.
pub open spec fn identity_of(unique_id: Option<Seq<char>>, label: Option<Seq<char>>) -> Seq<char> {
    match (unique_id, label) {
        (Some(id), _) => id,
        (None, Some(label)) => label,
        (None, None) => "UNKNOWN"@,
    }
}

/// The attributes of a rule.
pub open spec fn rule_attributes_of(attributes: KoreAttributesV) -> Result<
    RuleAttributesV,
    AxiomErrorV,
> {
    match priority_of(attributes) {
        Err(error) => Err(error),
        Ok(priority) => match (
            attribute_text(attributes, "label"@),
            attribute_text(attributes, "UNIQUE'Unds'ID"@),
        ) {
            (Err(error), _) => Err(error),
            (_, Err(error)) => Err(error),
            (Ok(label), Ok(unique_id)) => match (
                concreteness_of(attributes),
                attribute_text(attributes, "org'Stop'kframework'Stop'attributes'Stop'Source"@),
                attribute_text(attributes, "org'Stop'kframework'Stop'attributes'Stop'Location"@),
            ) {
                (Err(error), _, _) => Err(error),
                (_, Err(error), _) => Err(error),
                (_, _, Err(error)) => Err(error),
                (Ok(concreteness), Ok(source), Ok(location)) => Ok(
                    RuleAttributesV {
                        priority,
                        label,
                        unique_id: identity_of(unique_id, label),
                        simplification: is_marked(attributes, "simplification"@),
                        preserves_definedness: is_marked(attributes, "preserves-definedness"@),
                        concreteness,
                        smt_lemma: is_marked(attributes, "smt-lemma"@),
                        executable: !is_marked(attributes, "non-executable"@),
                        source,
                        location,
                    },
                ),
            },
        },
    }
}

impl RuleAttributes {
    /// Read the attributes of a rule.
    #[verifier::spinoff_prover]
    pub fn parse(attributes: &KoreAttributes) -> (result: Result<Self, AxiomError>)
        ensures
            result_view(result) == rule_attributes_of(attributes@),
    {
        let priority: u8 = match parse_priority(attributes) {
            Ok(priority) => priority,
            Err(error) => {
                return Err(error);
            },
        };
        let label = match attribute_string(attributes, "label") {
            Ok(label) => label,
            Err(error) => {
                return Err(error);
            },
        };
        let unique_id = match attribute_string(attributes, "UNIQUE'Unds'ID") {
            Ok(unique_id) => unique_id,
            Err(error) => {
                return Err(error);
            },
        };
        let unique_id = match unique_id {
            Some(unique_id) => unique_id,
            None => match &label {
                Some(label) => label.duplicate(),
                None => "UNKNOWN".to_owned(),
            },
        };
        let concreteness = match parse_concreteness(attributes) {
            Ok(concreteness) => concreteness,
            Err(error) => {
                return Err(error);
            },
        };
        let source = match attribute_string(
            attributes,
            "org'Stop'kframework'Stop'attributes'Stop'Source",
        ) {
            Ok(source) => source,
            Err(error) => {
                return Err(error);
            },
        };
        let location = match attribute_string(
            attributes,
            "org'Stop'kframework'Stop'attributes'Stop'Location",
        ) {
            Ok(location) => location,
            Err(error) => {
                return Err(error);
            },
        };
        Ok(
            RuleAttributes {
                priority,
                label,
                unique_id,
                simplification: has_attribute(attributes, "simplification"),
                preserves_definedness: has_attribute(attributes, "preserves-definedness"),
                concreteness,
                smt_lemma: has_attribute(attributes, "smt-lemma"),
                executable: !has_attribute(attributes, "non-executable"),
                source,
                location,
            },
        )
    }
}

} // verus!
