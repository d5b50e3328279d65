//! Matches that are recovered by taking a pair of a match's remainder apart.

use vstd::prelude::*;
use crate::definition::BackendDefinition;
use crate::domain::{functional, is_functional_pattern};
use crate::freshen::{freshen_unbound_rule_variables, freshened, FreshenedV};
use crate::index::{extend_unique, push_unique, unique_extension};
use crate::kernel::Kernel;
use crate::match_collections::lemma_optional_view;
use crate::matcher::{definition_context, has_hook, match_terms_in_definition, terms_matched};
use crate::matching::{MatchMode, MatchResult, MatchResultV};
use crate::model::{deep, duplicate_all, group_deep, Value};
use crate::normalize::add_unique;
use crate::pattern::{Pattern, PatternV};
use crate::predicate::{Predicate, PredicateV};
use crate::rewrite_types::{PartialRuleMatch, PartialRuleMatchV};
use crate::rule::{RewriteRule, RewriteRuleV};
use crate::substitution::{compose, composed, substitute, substituted, Substitution, SubstitutionV};
use crate::term::{lemma_term_view, Sort, SortV, Symbol, SymbolV, Term, TermV};
use crate::truth::{
    bool_domain_value, bool_literal, bool_value, bool_value_of, conjunction_truth, predicate_truth,
    predicates_truth, truth_of, Truth,
};

verus! {

broadcast use {group_deep, lemma_optional_view};

/// The side of a pair that is taken apart.
#[derive(Clone, Copy, Debug, PartialEq, Eq, Structural)]
pub enum SplitSide {
    Pattern,
    Subject,
}

/// A Boolean function that has to be a literal: the value that all operands must have.
#[derive(Debug, PartialEq, Eq)]
pub struct BooleanSplit {
    pub side: SplitSide,
    pub expected: bool,
    pub operands: Vec<Term>,
}

/// The view of [`BooleanSplit`].
pub struct BooleanSplitV {
    pub side: SplitSide,
    pub expected: bool,
    pub operands: Seq<TermV>,
}

impl View for BooleanSplit {
    type V = BooleanSplitV;

    open spec fn view(&self) -> BooleanSplitV {
        BooleanSplitV {
            side: self.side,
            expected: self.expected,
            operands: deep(self.operands@),
        }
    }
}

impl DeepView for BooleanSplit {
    type V = BooleanSplitV;

    open spec fn deep_view(&self) -> BooleanSplitV {
        self@
    }
}

impl Value for BooleanSplit {
    fn duplicate(&self) -> (copy: Self) {
        BooleanSplit {
            side: self.side,
            expected: self.expected,
            operands: self.operands.duplicate(),
        }
    }

    fn equals(&self, other: &Self) -> (same: bool) {
        self.side == other.side
            && self.expected == other.expected
            && self.operands.equals(&other.operands)
    }
}

/// An equality function that has to be a literal.
#[derive(Debug, PartialEq, Eq)]
pub struct EqualitySplit {
    pub side: SplitSide,
    pub value: bool,
    pub left: Term,
    pub right: Term,
}

/// The view of [`EqualitySplit`].
pub struct EqualitySplitV {
    pub side: SplitSide,
    pub value: bool,
    pub left: TermV,
    pub right: TermV,
}

impl View for EqualitySplit {
    type V = EqualitySplitV;

    open spec fn view(&self) -> EqualitySplitV {
        EqualitySplitV {
            side: self.side,
            value: self.value,
            left: self.left@,
            right: self.right@,
        }
    }
}

impl DeepView for EqualitySplit {
    type V = EqualitySplitV;

    open spec fn deep_view(&self) -> EqualitySplitV {
        self@
    }
}

impl Value for EqualitySplit {
    fn duplicate(&self) -> (copy: Self) {
        EqualitySplit {
            side: self.side,
            value: self.value,
            left: self.left.duplicate(),
            right: self.right.duplicate(),
        }
    }

    fn equals(&self, other: &Self) -> (same: bool) {
        self.side == other.side
            && self.value == other.value
            && self.left.equals(&other.left)
            && self.right.equals(&other.right)
    }
}

/// A test for a key of a map that has to be false.
#[derive(Debug, PartialEq, Eq)]
pub struct MapNotInKeysSplit {
    pub side: SplitSide,
    pub symbol: Symbol,
    pub sort_arguments: Vec<Sort>,
    pub key: Term,
    pub map: Term,
}

/// The view of [`MapNotInKeysSplit`].
pub struct MapNotInKeysSplitV {
    pub side: SplitSide,
    pub symbol: SymbolV,
    pub sort_arguments: Seq<SortV>,
    pub key: TermV,
    pub map: TermV,
}

impl View for MapNotInKeysSplit {
    type V = MapNotInKeysSplitV;

    open spec fn view(&self) -> MapNotInKeysSplitV {
        MapNotInKeysSplitV {
            side: self.side,
            symbol: self.symbol@,
            sort_arguments: deep(self.sort_arguments@),
            key: self.key@,
            map: self.map@,
        }
    }
}

impl DeepView for MapNotInKeysSplit {
    type V = MapNotInKeysSplitV;

    open spec fn deep_view(&self) -> MapNotInKeysSplitV {
        self@
    }
}

impl Value for MapNotInKeysSplit {
    fn duplicate(&self) -> (copy: Self) {
        MapNotInKeysSplit {
            side: self.side,
            symbol: self.symbol.duplicate(),
            sort_arguments: self.sort_arguments.duplicate(),
            key: self.key.duplicate(),
            map: self.map.duplicate(),
        }
    }

    fn equals(&self, other: &Self) -> (same: bool) {
        self.side == other.side
            && self.symbol.equals(&other.symbol)
            && self.sort_arguments.equals(&other.sort_arguments)
            && self.key.equals(&other.key)
            && self.map.equals(&other.map)
    }
}

/// A conditional, with the pair for either case.
#[derive(Debug, PartialEq, Eq)]
pub struct IteSplit {
    pub side: SplitSide,
    pub condition: Term,
    pub then_pair: (Term, Term),
    pub else_pair: (Term, Term),
}

/// The view of [`IteSplit`].
pub struct IteSplitV {
    pub side: SplitSide,
    pub condition: TermV,
    pub then_pair: (TermV, TermV),
    pub else_pair: (TermV, TermV),
}

impl View for IteSplit {
    type V = IteSplitV;

    open spec fn view(&self) -> IteSplitV {
        IteSplitV {
            side: self.side,
            condition: self.condition@,
            then_pair: self.then_pair.deep_view(),
            else_pair: self.else_pair.deep_view(),
        }
    }
}

impl DeepView for IteSplit {
    type V = IteSplitV;

    open spec fn deep_view(&self) -> IteSplitV {
        self@
    }
}

impl Value for IteSplit {
    fn duplicate(&self) -> (copy: Self) {
        IteSplit {
            side: self.side,
            condition: self.condition.duplicate(),
            then_pair: self.then_pair.duplicate(),
            else_pair: self.else_pair.duplicate(),
        }
    }

    fn equals(&self, other: &Self) -> (same: bool) {
        self.side == other.side
            && self.condition.equals(&other.condition)
            && self.then_pair.equals(&other.then_pair)
            && self.else_pair.equals(&other.else_pair)
    }
}

/// The pairs but the one at `index`.
pub(crate) fn without_pair(pairs: &Vec<(Term, Term)>, index: usize) -> (result: Vec<(Term, Term)>)
    requires
        index < pairs.len(),
    ensures
        deep(result@) == deep(pairs@).remove(index as int),
{
    let mut result = duplicate_all(pairs);
    let ghost copied = result@;
    result.remove(index);
    assert(deep(result@) =~= deep(copied).remove(index as int));
    result
}

pub(crate) fn single(matched: PartialRuleMatch) -> (result: Vec<PartialRuleMatch>)
    ensures
        deep(result@) == seq![matched@],
{
    let mut result: Vec<PartialRuleMatch> = Vec::new();
    result.push(matched);
    assert(deep(result@) =~= seq![matched@]);
    result
}

// ---------------------------------------------------------------------------------------------
// Boolean functions
// ---------------------------------------------------------------------------------------------
/// The value that the operands must have for `term` to be `value`, and the operands.
pub open spec fn operands_of(term: TermV, value: bool) -> Option<(bool, Seq<TermV>)> {
    match term {
        TermV::Application { symbol, arguments, .. } => {
            let hook = symbol.attributes.hook;
            if hook == Some("BOOL.and"@) && value && arguments.len() == 2 {
                Some((true, arguments))
            } else if hook == Some("BOOL.or"@) && !value && arguments.len() == 2 {
                Some((false, arguments))
            } else if hook == Some("BOOL.not"@) && arguments.len() == 1 {
                Some((!value, arguments))
            } else {
                None
            }
        },
        _ => None,
    }
}

/// A pair of a Boolean function and a literal.
pub open spec fn boolean_split(left: TermV, right: TermV) -> Option<BooleanSplitV> {
    let on_pattern = match bool_value_of(right) {
        Some(value) => operands_of(left, value),
        None => None,
    };
    let on_subject = match bool_value_of(left) {
        Some(value) => operands_of(right, value),
        None => None,
    };
    match (on_pattern, on_subject) {
        (Some((expected, operands)), _) => Some(
            BooleanSplitV { side: SplitSide::Pattern, expected, operands },
        ),
        (None, Some((expected, operands))) => Some(
            BooleanSplitV { side: SplitSide::Subject, expected, operands },
        ),
        (None, None) => None,
    }
}

/// The first pair, from `from` on, of a Boolean function and a literal.
pub open spec fn first_boolean_split(
    pairs: Seq<(TermV, TermV)>,
    substitution: SubstitutionV,
    from: int,
) -> Option<(int, BooleanSplitV)>
    decreases pairs.len() - from,
{
    if from >= pairs.len() {
        None
    } else {
        match boolean_split(
            substituted(pairs[from].0, substitution),
            substituted(pairs[from].1, substitution),
        ) {
            Some(split) => Some((from, split)),
            None => first_boolean_split(pairs, substitution, from + 1),
        }
    }
}

/// What matching the operands from `from` on with the literal makes of a substitution and of the
/// pairs left open, unless one does not match.
pub open spec fn operands_matched<K: Kernel>(
    definition: &BackendDefinition<K>,
    operands: Seq<TermV>,
    expected: TermV,
    substitution: SubstitutionV,
    remainder: Seq<(TermV, TermV)>,
    from: int,
) -> Option<(SubstitutionV, Seq<(TermV, TermV)>)>
    decreases operands.len() - from,
{
    if from >= operands.len() {
        Some((substitution, remainder))
    } else {
        match terms_matched(
            definition_context(MatchMode::Implies, definition),
            substituted(operands[from], substitution),
            expected,
        ) {
            MatchResultV::Failed(_) => None,
            MatchResultV::Success(found) => operands_matched(
                definition,
                operands,
                expected,
                composed(found, substitution),
                remainder,
                from + 1,
            ),
            MatchResultV::Indeterminate { substitution: found, remainder: open } => operands_matched(
                definition,
                operands,
                expected,
                composed(found, substitution),
                remainder + open,
                from + 1,
            ),
        }
    }
}

/// `found` with the conditions that the operands from `from` on equal the literal, unless one
/// cannot.
pub open spec fn operand_conditions(
    operands: Seq<TermV>,
    expected: TermV,
    found: Seq<PredicateV>,
    from: int,
) -> Option<Seq<PredicateV>>
    decreases operands.len() - from,
{
    if from >= operands.len() {
        Some(found)
    } else {
        let condition = PredicateV::Equals(operands[from], expected);
        match truth_of(condition) {
            Truth::False => None,
            Truth::True => operand_conditions(operands, expected, found, from + 1),
            Truth::Unknown => operand_conditions(
                operands,
                expected,
                found.push(condition),
                from + 1,
            ),
        }
    }
}

/// The matches by taking a Boolean function apart: a conjunction that is true, a disjunction that
/// is false, or a negation.
pub open spec fn boolean_matches<K: Kernel>(
    definition: &BackendDefinition<K>,
    substitution: SubstitutionV,
    remainder: Seq<(TermV, TermV)>,
) -> Option<Seq<PartialRuleMatchV>> {
    match first_boolean_split(remainder, substitution, 0) {
        None => None,
        Some((index, split)) => {
            let untouched = remainder.remove(index);
            let expected = bool_literal(split.expected);
            match split.side {
                SplitSide::Pattern => match operands_matched(
                    definition,
                    split.operands,
                    expected,
                    substitution,
                    untouched,
                    0,
                ) {
                    None => Some(Seq::empty()),
                    Some((substitution, remainder)) => Some(
                        seq![
                            PartialRuleMatchV {
                                substitution,
                                conditions: Seq::empty(),
                                remainder,
                            },
                        ],
                    ),
                },
                SplitSide::Subject => match operand_conditions(
                    split.operands,
                    expected,
                    Seq::empty(),
                    0,
                ) {
                    None => Some(Seq::empty()),
                    Some(conditions) => Some(
                        seq![
                            PartialRuleMatchV { substitution, conditions, remainder: untouched },
                        ],
                    ),
                },
            }
        },
    }
}

fn boolean_operands(term: &Term, value: bool) -> (result: Option<(bool, Vec<Term>)>)
    ensures
        result.deep_view() == operands_of(term@, value),
{
    proof {
        lemma_term_view(*term);
    }
    match term {
        Term::Application { symbol, arguments, .. } => {
            if has_hook(symbol, "BOOL.and") && value && arguments.len() == 2 {
                Some((true, arguments.duplicate()))
            } else if has_hook(symbol, "BOOL.or") && !value && arguments.len() == 2 {
                Some((false, arguments.duplicate()))
            } else if has_hook(symbol, "BOOL.not") && arguments.len() == 1 {
                Some((!value, arguments.duplicate()))
            } else {
                None
            }
        },
        _ => None,
    }
}

fn split_boolean_pair(left: &Term, right: &Term) -> (result: Option<BooleanSplit>)
    ensures
        result.deep_view() == boolean_split(left@, right@),
{
    if let Some(value) = bool_value(right) {
        if let Some((expected, operands)) = boolean_operands(left, value) {
            return Some(BooleanSplit { side: SplitSide::Pattern, expected, operands });
        }
    }
    if let Some(value) = bool_value(left) {
        if let Some((expected, operands)) = boolean_operands(right, value) {
            return Some(BooleanSplit { side: SplitSide::Subject, expected, operands });
        }
    }
    None
}

fn find_boolean_split(pairs: &Vec<(Term, Term)>, substitution: &Substitution) -> (result: Option<
    (usize, BooleanSplit),
>)
    ensures
        match result {
            Some((index, split)) => index < pairs.len() && first_boolean_split(
                deep(pairs@),
                substitution@,
                0,
            ) == Some((index as int, split@)),
            None => first_boolean_split(deep(pairs@), substitution@, 0) is None,
        },
{
    let mut i: usize = 0;
    while i < pairs.len()
        invariant
            i <= pairs.len(),
            first_boolean_split(deep(pairs@), substitution@, 0) == first_boolean_split(
                deep(pairs@),
                substitution@,
                i as int,
            ),
        decreases pairs.len() - i,
    {
        assert(deep(pairs@)[i as int] == (pairs[i as int].0@, pairs[i as int].1@));
        let left = substitute(&pairs[i].0, substitution);
        let right = substitute(&pairs[i].1, substitution);
        if let Some(split) = split_boolean_pair(&left, &right) {
            return Some((i, split));
        }
        i += 1;
    }
    None
}

fn match_operands<K: Kernel>(
    definition: &BackendDefinition<K>,
    operands: &Vec<Term>,
    expected: &Term,
    substitution: Substitution,
    remainder: Vec<(Term, Term)>,
) -> (result: Option<(Substitution, Vec<(Term, Term)>)>)
    ensures
        result.deep_view() == operands_matched(
            definition,
            deep(operands@),
            expected@,
            substitution@,
            deep(remainder@),
            0,
        ),
{
    let ghost goal = operands_matched(
        definition,
        deep(operands@),
        expected@,
        substitution@,
        deep(remainder@),
        0,
    );
    let mut current = substitution;
    let mut open = remainder;
    let mut i: usize = 0;
    while i < operands.len()
        invariant
            i <= operands.len(),
            goal == operands_matched(
                definition,
                deep(operands@),
                expected@,
                substitution@,
                deep(remainder@),
                0,
            ),
            goal == operands_matched(
                definition,
                deep(operands@),
                expected@,
                current@,
                deep(open@),
                i as int,
            ),
        decreases operands.len() - i,
    {
        assert(deep(operands@)[i as int] == operands[i as int]@);
        let operand = substitute(&operands[i], &current);
        match match_terms_in_definition(MatchMode::Implies, definition, &operand, expected) {
            MatchResult::Failed(_) => {
                return None;
            },
            MatchResult::Success(found) => {
                current = compose(&found, &current);
            },
            MatchResult::Indeterminate { substitution: found, remainder: more } => {
                current = compose(&found, &current);
                let mut more = more;
                open.append(&mut more);
            },
        }
        i += 1;
    }
    Some((current, open))
}

fn conditions_on_operands(operands: &Vec<Term>, expected: &Term) -> (result: Option<Vec<Predicate>>)
    ensures
        result.deep_view() == operand_conditions(deep(operands@), expected@, Seq::empty(), 0),
{
    let mut found: Vec<Predicate> = Vec::new();
    let mut i: usize = 0;
    while i < operands.len()
        invariant
            i <= operands.len(),
            operand_conditions(deep(operands@), expected@, Seq::empty(), 0) == operand_conditions(
                deep(operands@),
                expected@,
                deep(found@),
                i as int,
            ),
        decreases operands.len() - i,
    {
        assert(deep(operands@)[i as int] == operands[i as int]@);
        let condition = Predicate::equality(operands[i].duplicate(), expected.duplicate());
        match predicate_truth(&condition) {
            Truth::False => {
                return None;
            },
            Truth::True => {},
            Truth::Unknown => {
                found.push(condition);
            },
        }
        i += 1;
    }
    Some(found)
}

/// Take a Boolean function apart.
pub(crate) fn recover_boolean_matches<K: Kernel>(
    definition: &BackendDefinition<K>,
    substitution: &Substitution,
    remainder: &Vec<(Term, Term)>,
) -> (result: Option<Vec<PartialRuleMatch>>)
    ensures
        result.deep_view() == boolean_matches(definition, substitution@, deep(remainder@)),
{
    match find_boolean_split(remainder, substitution) {
        None => None,
        Some((index, split)) => {
            let untouched = without_pair(remainder, index);
            let expected = bool_domain_value(split.expected);
            match split.side {
                SplitSide::Pattern => match match_operands(
                    definition,
                    &split.operands,
                    &expected,
                    substitution.duplicate(),
                    untouched,
                ) {
                    None => Some(Vec::new()),
                    Some((substitution, remainder)) => Some(
                        single(
                            PartialRuleMatch { substitution, conditions: Vec::new(), remainder },
                        ),
                    ),
                },
                SplitSide::Subject => match conditions_on_operands(&split.operands, &expected) {
                    None => Some(Vec::new()),
                    Some(conditions) => Some(
                        single(
                            PartialRuleMatch {
                                substitution: substitution.duplicate(),
                                conditions,
                                remainder: untouched,
                            },
                        ),
                    ),
                },
            }
        },
    }
}

// ---------------------------------------------------------------------------------------------
// Equality functions
// ---------------------------------------------------------------------------------------------
/// The operands of an equality function.
pub open spec fn equality_arguments_of(term: TermV) -> Option<(TermV, TermV)> {
    match term {
        TermV::Application { symbol, arguments, .. } => {
            let hook = symbol.attributes.hook;
            if (hook == Some("INT.eq"@) || hook == Some("STRING.eq"@) || hook == Some(
                "KEQUAL.eq"@,
            )) && functional(term) && arguments.len() == 2 {
                Some((arguments[0], arguments[1]))
            } else {
                None
            }
        },
        _ => None,
    }
}

/// A pair of an equality function and a literal.
pub open spec fn equality_split(left: TermV, right: TermV) -> Option<EqualitySplitV> {
    match (equality_arguments_of(left), bool_value_of(right)) {
        (Some((first, second)), Some(value)) => Some(
            EqualitySplitV { side: SplitSide::Pattern, value, left: first, right: second },
        ),
        _ => match (equality_arguments_of(right), bool_value_of(left)) {
            (Some((first, second)), Some(value)) => Some(
                EqualitySplitV { side: SplitSide::Subject, value, left: first, right: second },
            ),
            _ => None,
        },
    }
}

/// The first pair, from `from` on, of an equality function and a literal.
pub open spec fn first_equality_split(
    pairs: Seq<(TermV, TermV)>,
    substitution: SubstitutionV,
    from: int,
) -> Option<(int, EqualitySplitV)>
    decreases pairs.len() - from,
{
    if from >= pairs.len() {
        None
    } else {
        match equality_split(
            substituted(pairs[from].0, substitution),
            substituted(pairs[from].1, substitution),
        ) {
            Some(split) => Some((from, split)),
            None => first_equality_split(pairs, substitution, from + 1),
        }
    }
}

/// The matches by taking an equality function apart. That it is true means that its operands
/// match; that it is false, or stands in the subject, is a condition.
pub open spec fn equality_matches<K: Kernel>(
    definition: &BackendDefinition<K>,
    rule: RewriteRuleV,
    pattern: PatternV,
    substitution: SubstitutionV,
    remainder: Seq<(TermV, TermV)>,
    counter: u64,
) -> (Option<Seq<PartialRuleMatchV>>, u64) {
    match first_equality_split(remainder, substitution, 0) {
        None => (None, counter),
        Some((index, split)) => {
            let untouched = remainder.remove(index);
            if split.value && split.side is Pattern {
                let matches = match terms_matched(
                    definition_context(MatchMode::Implies, definition),
                    split.left,
                    split.right,
                ) {
                    MatchResultV::Failed(_) => Seq::empty(),
                    MatchResultV::Success(found) => seq![
                        PartialRuleMatchV {
                            substitution: composed(found, substitution),
                            conditions: Seq::empty(),
                            remainder: untouched,
                        },
                    ],
                    MatchResultV::Indeterminate { substitution: found, remainder: open } => seq![
                        PartialRuleMatchV {
                            substitution: composed(found, substitution),
                            conditions: Seq::empty(),
                            remainder: untouched + open,
                        },
                    ],
                };
                (Some(matches), counter)
            } else {
                let fresh = if split.side is Pattern {
                    freshened(rule, pattern, substitution, counter)
                } else {
                    FreshenedV { substitution, fresh: Seq::empty(), counter }
                };
                let equality = PredicateV::Equals(
                    substituted(split.left, fresh.substitution),
                    substituted(split.right, fresh.substitution),
                );
                let condition = if split.value {
                    equality
                } else {
                    PredicateV::Not(Box::new(equality))
                };
                let matches = match truth_of(condition) {
                    Truth::False => Seq::empty(),
                    Truth::True => seq![
                        PartialRuleMatchV {
                            substitution: fresh.substitution,
                            conditions: Seq::empty(),
                            remainder: untouched,
                        },
                    ],
                    Truth::Unknown => seq![
                        PartialRuleMatchV {
                            substitution: fresh.substitution,
                            conditions: seq![condition],
                            remainder: untouched,
                        },
                    ],
                };
                (Some(matches), fresh.counter)
            }
        },
    }
}

fn equality_arguments(term: &Term) -> (result: Option<(Term, Term)>)
    ensures
        result.deep_view() == equality_arguments_of(term@),
{
    proof {
        lemma_term_view(*term);
    }
    match term {
        Term::Application { symbol, arguments, .. } => {
            if (has_hook(symbol, "INT.eq") || has_hook(symbol, "STRING.eq") || has_hook(
                symbol,
                "KEQUAL.eq",
            )) && is_functional_pattern(term) && arguments.len() == 2 {
                assert(deep(arguments@)[0] == arguments[0]@);
                assert(deep(arguments@)[1] == arguments[1]@);
                Some((arguments[0].duplicate(), arguments[1].duplicate()))
            } else {
                None
            }
        },
        _ => None,
    }
}

fn split_equality_pair(left: &Term, right: &Term) -> (result: Option<EqualitySplit>)
    ensures
        result.deep_view() == equality_split(left@, right@),
{
    if let Some((first, second)) = equality_arguments(left) {
        if let Some(value) = bool_value(right) {
            return Some(
                EqualitySplit { side: SplitSide::Pattern, value, left: first, right: second },
            );
        }
    }
    if let Some((first, second)) = equality_arguments(right) {
        if let Some(value) = bool_value(left) {
            return Some(
                EqualitySplit { side: SplitSide::Subject, value, left: first, right: second },
            );
        }
    }
    None
}

fn find_equality_split(pairs: &Vec<(Term, Term)>, substitution: &Substitution) -> (result: Option<
    (usize, EqualitySplit),
>)
    ensures
        match result {
            Some((index, split)) => index < pairs.len() && first_equality_split(
                deep(pairs@),
                substitution@,
                0,
            ) == Some((index as int, split@)),
            None => first_equality_split(deep(pairs@), substitution@, 0) is None,
        },
{
    let mut i: usize = 0;
    while i < pairs.len()
        invariant
            i <= pairs.len(),
            first_equality_split(deep(pairs@), substitution@, 0) == first_equality_split(
                deep(pairs@),
                substitution@,
                i as int,
            ),
        decreases pairs.len() - i,
    {
        assert(deep(pairs@)[i as int] == (pairs[i as int].0@, pairs[i as int].1@));
        let left = substitute(&pairs[i].0, substitution);
        let right = substitute(&pairs[i].1, substitution);
        if let Some(split) = split_equality_pair(&left, &right) {
            return Some((i, split));
        }
        i += 1;
    }
    None
}

/// Take an equality function apart.
pub(crate) fn recover_equality_matches<K: Kernel>(
    definition: &BackendDefinition<K>,
    rule: &RewriteRule,
    pattern: &Pattern,
    substitution: &Substitution,
    remainder: &Vec<(Term, Term)>,
    counter: &mut u64,
) -> (result: Option<Vec<PartialRuleMatch>>)
    ensures
        (result.deep_view(), *final(counter)) == equality_matches(
            definition,
            rule@,
            pattern@,
            substitution@,
            deep(remainder@),
            *old(counter),
        ),
{
    match find_equality_split(remainder, substitution) {
        None => None,
        Some((index, split)) => {
            let mut untouched = without_pair(remainder, index);
            if split.value && matches!(split.side, SplitSide::Pattern) {
                return Some(
                    match match_terms_in_definition(
                        MatchMode::Implies,
                        definition,
                        &split.left,
                        &split.right,
                    ) {
                        MatchResult::Failed(_) => Vec::new(),
                        MatchResult::Success(found) => single(
                            PartialRuleMatch {
                                substitution: compose(&found, substitution),
                                conditions: Vec::new(),
                                remainder: untouched,
                            },
                        ),
                        MatchResult::Indeterminate { substitution: found, remainder: open } => {
                            let mut open = open;
                            untouched.append(&mut open);
                            single(
                                PartialRuleMatch {
                                    substitution: compose(&found, substitution),
                                    conditions: Vec::new(),
                                    remainder: untouched,
                                },
                            )
                        },
                    },
                );
            }
            let substitution = match split.side {
                SplitSide::Pattern => freshen_unbound_rule_variables(
                    rule,
                    pattern,
                    substitution.duplicate(),
                    counter,
                ).0,
                SplitSide::Subject => substitution.duplicate(),
            };
            let equality = Predicate::equality(
                substitute(&split.left, &substitution),
                substitute(&split.right, &substitution),
            );
            let condition = if split.value {
                equality
            } else {
                Predicate::negation(equality)
            };
            match predicate_truth(&condition) {
                Truth::False => Some(Vec::new()),
                Truth::True => Some(
                    single(
                        PartialRuleMatch {
                            substitution,
                            conditions: Vec::new(),
                            remainder: untouched,
                        },
                    ),
                ),
                Truth::Unknown => {
                    let ghost expected = seq![condition@];
                    let mut conditions: Vec<Predicate> = Vec::new();
                    conditions.push(condition);
                    assert(deep(conditions@) =~= expected);
                    Some(
                        single(
                            PartialRuleMatch { substitution, conditions, remainder: untouched },
                        ),
                    )
                },
            }
        },
    }
}

// ---------------------------------------------------------------------------------------------
// Tests for keys of maps
// ---------------------------------------------------------------------------------------------
/// The key and the map of a test for a key.
pub open spec fn in_keys_arguments(term: TermV) -> Option<(TermV, TermV)> {
    match term {
        TermV::Application { symbol, arguments, .. } => if symbol.attributes.hook == Some(
            "MAP.in_keys"@,
        ) && arguments.len() == 2 {
            Some((arguments[0], arguments[1]))
        } else {
            None
        },
        _ => None,
    }
}

/// A test for a key on one side.
pub open spec fn not_in_keys_side(side: SplitSide, term: TermV) -> Option<MapNotInKeysSplitV> {
    match in_keys_arguments(term) {
        Some((key, map)) => Some(
            MapNotInKeysSplitV {
                side,
                symbol: term->Application_symbol,
                sort_arguments: term->Application_sort_arguments,
                key,
                map,
            },
        ),
        None => None,
    }
}

/// A pair of a test for a key and the literal false.
pub open spec fn not_in_keys_split(left: TermV, right: TermV) -> Option<MapNotInKeysSplitV> {
    if bool_value_of(right) == Some(false) && in_keys_arguments(left) is Some {
        not_in_keys_side(SplitSide::Pattern, left)
    } else if bool_value_of(left) == Some(false) {
        not_in_keys_side(SplitSide::Subject, right)
    } else {
        None
    }
}

/// The first pair, from `from` on, of a test for a key and the literal false.
pub open spec fn first_not_in_keys_split(
    pairs: Seq<(TermV, TermV)>,
    substitution: SubstitutionV,
    from: int,
) -> Option<(int, MapNotInKeysSplitV)>
    decreases pairs.len() - from,
{
    if from >= pairs.len() {
        None
    } else {
        match not_in_keys_split(
            substituted(pairs[from].0, substitution),
            substituted(pairs[from].1, substitution),
        ) {
            Some(split) => Some((from, split)),
            None => first_not_in_keys_split(pairs, substitution, from + 1),
        }
    }
}

/// `found` with the conditions that the keys from `from` on differ from `key`.
pub open spec fn different_keys(
    key: TermV,
    entries: Seq<(TermV, TermV)>,
    found: Seq<PredicateV>,
    from: int,
) -> Seq<PredicateV>
    decreases entries.len() - from,
{
    if from >= entries.len() {
        found
    } else {
        different_keys(
            key,
            entries,
            push_unique(
                found,
                PredicateV::Not(Box::new(PredicateV::Equals(key, entries[from].0))),
            ),
            from + 1,
        )
    }
}

/// The first `count` of `predicates` that are not known to be true.
pub open spec fn not_known_true(predicates: Seq<PredicateV>, count: int) -> Seq<PredicateV>
    decreases count,
{
    if count <= 0 {
        Seq::empty()
    } else {
        let before = not_known_true(predicates, count - 1);
        if truth_of(predicates[count - 1]) is True {
            before
        } else {
            before.push(predicates[count - 1])
        }
    }
}

/// The conditions under which `key` is no key of the map of `entries` and `rest`.
pub open spec fn not_in_keys_conditions<K: Kernel>(
    definition: &BackendDefinition<K>,
    split: MapNotInKeysSplitV,
    key: TermV,
    map: TermV,
) -> Seq<PredicateV> {
    let defined = unique_extension(definition.kernel.ceil(key), definition.kernel.ceil(map));
    let different = different_keys(key, map->KMap_entries, defined, 0);
    let all = match map->KMap_rest {
        Some(rest) => push_unique(
            different,
            PredicateV::Equals(
                TermV::Application {
                    symbol: split.symbol,
                    sort_arguments: split.sort_arguments,
                    arguments: seq![key, *rest],
                },
                bool_literal(false),
            ),
        ),
        None => different,
    };
    not_known_true(all, all.len() as int)
}

/// The matches by taking a test for a key that has to be false apart over the known entries of the
/// map.
pub open spec fn not_in_keys_matches<K: Kernel>(
    definition: &BackendDefinition<K>,
    rule: RewriteRuleV,
    pattern: PatternV,
    substitution: SubstitutionV,
    remainder: Seq<(TermV, TermV)>,
    counter: u64,
) -> (Option<Seq<PartialRuleMatchV>>, u64) {
    match first_not_in_keys_split(remainder, substitution, 0) {
        None => (None, counter),
        Some((index, split)) => {
            let fresh = if split.side is Pattern {
                freshened(rule, pattern, substitution, counter)
            } else {
                FreshenedV { substitution, fresh: Seq::empty(), counter }
            };
            let key = substituted(split.key, fresh.substitution);
            let map = substituted(split.map, fresh.substitution);
            let untouched = remainder.remove(index);
            if !(map is KMap) || (map->KMap_entries.len() == 0 && map->KMap_rest is Some) {
                (None, fresh.counter)
            } else if map->KMap_entries.len() == 0 {
                (
                    Some(
                        seq![
                            PartialRuleMatchV {
                                substitution: fresh.substitution,
                                conditions: Seq::empty(),
                                remainder: untouched,
                            },
                        ],
                    ),
                    fresh.counter,
                )
            } else {
                let conditions = not_in_keys_conditions(definition, split, key, map);
                if conjunction_truth(conditions) is False {
                    (Some(Seq::empty()), fresh.counter)
                } else {
                    (
                        Some(
                            seq![
                                PartialRuleMatchV {
                                    substitution: fresh.substitution,
                                    conditions,
                                    remainder: untouched,
                                },
                            ],
                        ),
                        fresh.counter,
                    )
                }
            }
        },
    }
}

fn map_in_keys_split(side: SplitSide, term: &Term) -> (result: Option<MapNotInKeysSplit>)
    ensures
        result.deep_view() == not_in_keys_side(side, term@),
{
    proof {
        lemma_term_view(*term);
    }
    match term {
        Term::Application { symbol, sort_arguments, arguments } => {
            if has_hook(symbol, "MAP.in_keys") && arguments.len() == 2 {
                assert(deep(arguments@)[0] == arguments[0]@);
                assert(deep(arguments@)[1] == arguments[1]@);
                Some(
                    MapNotInKeysSplit {
                        side,
                        symbol: symbol.duplicate(),
                        sort_arguments: sort_arguments.duplicate(),
                        key: arguments[0].duplicate(),
                        map: arguments[1].duplicate(),
                    },
                )
            } else {
                None
            }
        },
        _ => None,
    }
}

fn split_map_not_in_keys_pair(left: &Term, right: &Term) -> (result: Option<MapNotInKeysSplit>)
    ensures
        result.deep_view() == not_in_keys_split(left@, right@),
{
    if let Some(false) = bool_value(right) {
        let found = map_in_keys_split(SplitSide::Pattern, left);
        if found.is_some() {
            return found;
        }
    }
    if let Some(false) = bool_value(left) {
        return map_in_keys_split(SplitSide::Subject, right);
    }
    None
}

fn find_map_not_in_keys_split(pairs: &Vec<(Term, Term)>, substitution: &Substitution) -> (result:
    Option<(usize, MapNotInKeysSplit)>)
    ensures
        match result {
            Some((index, split)) => index < pairs.len() && first_not_in_keys_split(
                deep(pairs@),
                substitution@,
                0,
            ) == Some((index as int, split@)),
            None => first_not_in_keys_split(deep(pairs@), substitution@, 0) is None,
        },
{
    let mut i: usize = 0;
    while i < pairs.len()
        invariant
            i <= pairs.len(),
            first_not_in_keys_split(deep(pairs@), substitution@, 0) == first_not_in_keys_split(
                deep(pairs@),
                substitution@,
                i as int,
            ),
        decreases pairs.len() - i,
    {
        assert(deep(pairs@)[i as int] == (pairs[i as int].0@, pairs[i as int].1@));
        let left = substitute(&pairs[i].0, substitution);
        let right = substitute(&pairs[i].1, substitution);
        if let Some(split) = split_map_not_in_keys_pair(&left, &right) {
            return Some((i, split));
        }
        i += 1;
    }
    None
}

fn collect_not_in_keys_conditions<K: Kernel>(
    definition: &BackendDefinition<K>,
    split: &MapNotInKeysSplit,
    key: &Term,
    map: &Term,
) -> (result: Vec<Predicate>)
    requires
        map is KMap,
    ensures
        deep(result@) == not_in_keys_conditions(definition, split@, key@, map@),
{
    proof {
        lemma_term_view(*map);
    }
    let mut conditions = definition.kernel.ceil_term(key);
    extend_unique(&mut conditions, definition.kernel.ceil_term(map));
    if let Term::KMap { entries, rest, .. } = map {
        let ghost start = deep(conditions@);
        let mut i: usize = 0;
        while i < entries.len()
            invariant
                i <= entries.len(),
                different_keys(key@, deep(entries@), start, 0) == different_keys(
                    key@,
                    deep(entries@),
                    deep(conditions@),
                    i as int,
                ),
            decreases entries.len() - i,
        {
            assert(deep(entries@)[i as int].0 == entries[i as int].0@);
            add_unique(
                &mut conditions,
                Predicate::negation(
                    Predicate::equality(key.duplicate(), entries[i].0.duplicate()),
                ),
            );
            i += 1;
        }
        if let Some(rest) = rest {
            let mut arguments: Vec<Term> = Vec::new();
            arguments.push(key.duplicate());
            arguments.push(rest.duplicate());
            assert(deep(arguments@) =~= seq![key@, rest@]);
            let membership = Term::application(
                split.symbol.duplicate(),
                split.sort_arguments.duplicate(),
                arguments,
            );
            add_unique(
                &mut conditions,
                Predicate::equality(membership, bool_domain_value(false)),
            );
        }
    }
    drop_known_true(&conditions)
}

fn drop_known_true(predicates: &Vec<Predicate>) -> (result: Vec<Predicate>)
    ensures
        deep(result@) == not_known_true(deep(predicates@), predicates@.len() as int),
{
    let mut result: Vec<Predicate> = Vec::new();
    let mut i: usize = 0;
    while i < predicates.len()
        invariant
            i <= predicates.len(),
            deep(result@) == not_known_true(deep(predicates@), i as int),
        decreases predicates.len() - i,
    {
        assert(deep(predicates@)[i as int] == predicates[i as int]@);
        if !matches!(predicate_truth(&predicates[i]), Truth::True) {
            result.push(predicates[i].duplicate());
        }
        i += 1;
    }
    result
}

/// Take a test for a key that has to be false apart.
#[verifier::spinoff_prover]
pub(crate) fn recover_map_not_in_keys_matches<K: Kernel>(
    definition: &BackendDefinition<K>,
    rule: &RewriteRule,
    pattern: &Pattern,
    substitution: &Substitution,
    remainder: &Vec<(Term, Term)>,
    counter: &mut u64,
) -> (result: Option<Vec<PartialRuleMatch>>)
    ensures
        (result.deep_view(), *final(counter)) == not_in_keys_matches(
            definition,
            rule@,
            pattern@,
            substitution@,
            deep(remainder@),
            *old(counter),
        ),
{
    match find_map_not_in_keys_split(remainder, substitution) {
        None => None,
        Some((index, split)) => {
            let substitution = match split.side {
                SplitSide::Pattern => freshen_unbound_rule_variables(
                    rule,
                    pattern,
                    substitution.duplicate(),
                    counter,
                ).0,
                SplitSide::Subject => substitution.duplicate(),
            };
            let key = substitute(&split.key, &substitution);
            let map = substitute(&split.map, &substitution);
            proof {
                lemma_term_view(map);
            }
            let untouched = without_pair(remainder, index);
            if let Term::KMap { entries, rest, .. } = &map {
                if entries.len() == 0 {
                    if rest.is_some() {
                        return None;
                    }
                    return Some(
                        single(
                            PartialRuleMatch {
                                substitution,
                                conditions: Vec::new(),
                                remainder: untouched,
                            },
                        ),
                    );
                }
                let conditions = collect_not_in_keys_conditions(definition, &split, &key, &map);
                if matches!(predicates_truth(&conditions), Truth::False) {
                    return Some(Vec::new());
                }
                return Some(
                    single(PartialRuleMatch { substitution, conditions, remainder: untouched }),
                );
            }
            None
        },
    }
}

// ---------------------------------------------------------------------------------------------
// Conditionals
// ---------------------------------------------------------------------------------------------
/// The condition and the two cases of a conditional.
pub open spec fn ite_arguments(term: TermV) -> Option<(TermV, TermV, TermV)> {
    match term {
        TermV::Application { symbol, arguments, .. } => if symbol.attributes.hook == Some(
            "KEQUAL.ite"@,
        ) && arguments.len() == 3 {
            Some((arguments[0], arguments[1], arguments[2]))
        } else {
            None
        },
        _ => None,
    }
}

/// A pair with a conditional on one side.
pub open spec fn ite_split(pattern: TermV, subject: TermV) -> Option<IteSplitV> {
    match (ite_arguments(pattern), ite_arguments(subject)) {
        (Some((condition, first, second)), _) => Some(
            IteSplitV {
                side: SplitSide::Pattern,
                condition,
                then_pair: (first, subject),
                else_pair: (second, subject),
            },
        ),
        (None, Some((condition, first, second))) => Some(
            IteSplitV {
                side: SplitSide::Subject,
                condition,
                then_pair: (pattern, first),
                else_pair: (pattern, second),
            },
        ),
        (None, None) => None,
    }
}

/// The first pair, from `from` on, with a conditional.
pub open spec fn first_ite_split(
    pairs: Seq<(TermV, TermV)>,
    substitution: SubstitutionV,
    from: int,
) -> Option<(int, IteSplitV)>
    decreases pairs.len() - from,
{
    if from >= pairs.len() {
        None
    } else {
        match ite_split(
            substituted(pairs[from].0, substitution),
            substituted(pairs[from].1, substitution),
        ) {
            Some(split) => Some((from, split)),
            None => first_ite_split(pairs, substitution, from + 1),
        }
    }
}

/// The match of one case of a conditional, where the condition has the value of the case.
pub open spec fn ite_case<K: Kernel>(
    definition: &BackendDefinition<K>,
    substitution: SubstitutionV,
    untouched: Seq<(TermV, TermV)>,
    split: IteSplitV,
    value: bool,
) -> Option<PartialRuleMatchV> {
    let pair = if value {
        split.then_pair
    } else {
        split.else_pair
    };
    let matched = match terms_matched(
        definition_context(MatchMode::Rewrite, definition),
        pair.0,
        pair.1,
    ) {
        MatchResultV::Failed(_) => None,
        MatchResultV::Success(found) => Some((found, untouched)),
        MatchResultV::Indeterminate { substitution: found, remainder } => Some(
            (found, remainder + untouched),
        ),
    };
    match matched {
        None => None,
        Some((found, remainder)) => {
            let substitution = composed(found, substitution);
            let condition = substituted(split.condition, substitution);
            if split.side is Subject {
                Some(
                    PartialRuleMatchV {
                        substitution,
                        conditions: seq![PredicateV::Equals(condition, bool_literal(value))],
                        remainder,
                    },
                )
            } else {
                match terms_matched(
                    definition_context(MatchMode::Rewrite, definition),
                    condition,
                    bool_literal(value),
                ) {
                    MatchResultV::Failed(_) => None,
                    MatchResultV::Success(found) => Some(
                        PartialRuleMatchV {
                            substitution: composed(found, substitution),
                            conditions: Seq::empty(),
                            remainder,
                        },
                    ),
                    MatchResultV::Indeterminate { substitution: found, remainder: open } => {
                        let substitution = composed(found, substitution);
                        Some(
                            PartialRuleMatchV {
                                substitution,
                                conditions: seq![
                                    PredicateV::Equals(
                                        substituted(condition, substitution),
                                        bool_literal(value),
                                    ),
                                ],
                                remainder: remainder + open,
                            },
                        )
                    },
                }
            }
        },
    }
}

/// The matches by taking a conditional apart: those of either case.
pub open spec fn ite_matches<K: Kernel>(
    definition: &BackendDefinition<K>,
    substitution: SubstitutionV,
    remainder: Seq<(TermV, TermV)>,
) -> Option<Seq<PartialRuleMatchV>> {
    match first_ite_split(remainder, substitution, 0) {
        None => None,
        Some((index, split)) => {
            let untouched = remainder.remove(index);
            let first = match ite_case(definition, substitution, untouched, split, true) {
                Some(matched) => seq![matched],
                None => Seq::empty(),
            };
            Some(
                match ite_case(definition, substitution, untouched, split, false) {
                    Some(matched) => first.push(matched),
                    None => first,
                },
            )
        },
    }
}

fn find_ite_arguments(term: &Term) -> (result: Option<(&Term, &Term, &Term)>)
    ensures
        result.deep_view() == ite_arguments(term@),
{
    proof {
        lemma_term_view(*term);
    }
    match term {
        Term::Application { symbol, arguments, .. } => {
            if has_hook(symbol, "KEQUAL.ite") && arguments.len() == 3 {
                assert(deep(arguments@)[0] == arguments[0]@);
                assert(deep(arguments@)[1] == arguments[1]@);
                assert(deep(arguments@)[2] == arguments[2]@);
                Some((&arguments[0], &arguments[1], &arguments[2]))
            } else {
                None
            }
        },
        _ => None,
    }
}

/// Take a conditional on one side of a pair apart.
pub(crate) fn split_ite_pair(pattern: &Term, subject: &Term) -> (result: Option<IteSplit>)
    ensures
        result.deep_view() == ite_split(pattern@, subject@),
{
    if let Some((condition, first, second)) = find_ite_arguments(pattern) {
        return Some(
            IteSplit {
                side: SplitSide::Pattern,
                condition: condition.duplicate(),
                then_pair: (first.duplicate(), subject.duplicate()),
                else_pair: (second.duplicate(), subject.duplicate()),
            },
        );
    }
    if let Some((condition, first, second)) = find_ite_arguments(subject) {
        return Some(
            IteSplit {
                side: SplitSide::Subject,
                condition: condition.duplicate(),
                then_pair: (pattern.duplicate(), first.duplicate()),
                else_pair: (pattern.duplicate(), second.duplicate()),
            },
        );
    }
    None
}

fn find_ite_split(pairs: &Vec<(Term, Term)>, substitution: &Substitution) -> (result: Option<
    (usize, IteSplit),
>)
    ensures
        match result {
            Some((index, split)) => index < pairs.len() && first_ite_split(
                deep(pairs@),
                substitution@,
                0,
            ) == Some((index as int, split@)),
            None => first_ite_split(deep(pairs@), substitution@, 0) is None,
        },
{
    let mut i: usize = 0;
    while i < pairs.len()
        invariant
            i <= pairs.len(),
            first_ite_split(deep(pairs@), substitution@, 0) == first_ite_split(
                deep(pairs@),
                substitution@,
                i as int,
            ),
        decreases pairs.len() - i,
    {
        assert(deep(pairs@)[i as int] == (pairs[i as int].0@, pairs[i as int].1@));
        let pattern = substitute(&pairs[i].0, substitution);
        let subject = substitute(&pairs[i].1, substitution);
        if let Some(split) = split_ite_pair(&pattern, &subject) {
            return Some((i, split));
        }
        i += 1;
    }
    None
}

fn equals_literal(condition: Term, value: bool) -> (result: Vec<Predicate>)
    ensures
        deep(result@) == seq![PredicateV::Equals(condition@, bool_literal(value))],
{
    let mut result: Vec<Predicate> = Vec::new();
    result.push(Predicate::equality(condition, bool_domain_value(value)));
    assert(deep(result@) =~= seq![PredicateV::Equals(condition@, bool_literal(value))]);
    result
}

#[verifier::spinoff_prover]
fn recover_ite_case<K: Kernel>(
    definition: &BackendDefinition<K>,
    substitution: &Substitution,
    untouched: &Vec<(Term, Term)>,
    split: &IteSplit,
    value: bool,
) -> (result: Option<PartialRuleMatch>)
    ensures
        result.deep_view() == ite_case(
            definition,
            substitution@,
            deep(untouched@),
            split@,
            value,
        ),
{
    let pair: &(Term, Term) = if value {
        &split.then_pair
    } else {
        &split.else_pair
    };
    let (found, mut remainder) = match match_terms_in_definition(
        MatchMode::Rewrite,
        definition,
        &pair.0,
        &pair.1,
    ) {
        MatchResult::Failed(_) => {
            return None;
        },
        MatchResult::Success(found) => (found, untouched.duplicate()),
        MatchResult::Indeterminate { substitution: found, remainder } => {
            let mut remainder = remainder;
            let mut rest = untouched.duplicate();
            remainder.append(&mut rest);
            (found, remainder)
        },
    };
    let substitution = compose(&found, substitution);
    let condition = substitute(&split.condition, &substitution);
    if matches!(split.side, SplitSide::Subject) {
        return Some(
            PartialRuleMatch {
                substitution,
                conditions: equals_literal(condition, value),
                remainder,
            },
        );
    }
    match match_terms_in_definition(
        MatchMode::Rewrite,
        definition,
        &condition,
        &bool_domain_value(value),
    ) {
        MatchResult::Failed(_) => None,
        MatchResult::Success(found) => Some(
            PartialRuleMatch {
                substitution: compose(&found, &substitution),
                conditions: Vec::new(),
                remainder,
            },
        ),
        MatchResult::Indeterminate { substitution: found, remainder: open } => {
            let substitution = compose(&found, &substitution);
            let mut open = open;
            remainder.append(&mut open);
            let condition = substitute(&condition, &substitution);
            Some(
                PartialRuleMatch {
                    substitution,
                    conditions: equals_literal(condition, value),
                    remainder,
                },
            )
        },
    }
}

/// Take a conditional whose condition is symbolic apart, each case guarded by the value of the
/// condition that selects it.
pub(crate) fn recover_ite_matches<K: Kernel>(
    definition: &BackendDefinition<K>,
    substitution: &Substitution,
    remainder: &Vec<(Term, Term)>,
) -> (result: Option<Vec<PartialRuleMatch>>)
    ensures
        result.deep_view() == ite_matches(definition, substitution@, deep(remainder@)),
{
    match find_ite_split(remainder, substitution) {
        None => None,
        Some((index, split)) => {
            let untouched = without_pair(remainder, index);
            let mut result = match recover_ite_case(
                definition,
                substitution,
                &untouched,
                &split,
                true,
            ) {
                Some(matched) => single(matched),
                None => Vec::new(),
            };
            if let Some(matched) = recover_ite_case(
                definition,
                substitution,
                &untouched,
                &split,
                false,
            ) {
                result.push(matched);
            }
            Some(result)
        },
    }
}

} // verus!
