//! Normal forms of predicates.

use vstd::prelude::*;
use crate::definition::BackendDefinition;
use crate::index::{push_unique, unique_from};
use crate::kernel::Kernel;
use crate::matching::{
    injected, injection_equality, match_injection_equality, InjectionEquality, InjectionEqualityV,
};
use crate::model::{contains, deep, group_deep, Value};
use crate::ops::sort_of;
use crate::predicate::{lemma_predicate_view, Predicate, PredicateV};
use crate::sorts::{subsort, SortGraphV};
use crate::term::{lemma_term_view, simple_sort, Term, TermV};
use crate::text::is_text;
use crate::truth::{
    bool_domain_value, bool_literal, bool_value, bool_value_of, predicate_truth, truth_of, Truth,
};

verus! {

broadcast use group_deep;

// ---------------------------------------------------------------------------------------------
// Connectives
// ---------------------------------------------------------------------------------------------
/// The parts of a conjunction, where it is not false, with one more part in normal form.
pub open spec fn conjoined_part(
    parts: Option<Seq<PredicateV>>,
    part: PredicateV,
) -> Option<Seq<PredicateV>> {
    match (parts, part) {
        (None, _) => None,
        (Some(parts), PredicateV::True) => Some(parts),
        (Some(_), PredicateV::False) => None,
        (Some(parts), PredicateV::And(nested)) => Some(unique_from(parts, nested, 0)),
        (Some(parts), part) => Some(push_unique(parts, part)),
    }
}

/// The parts of a disjunction, where it is not true, with one more part in normal form.
pub open spec fn disjoined_part(
    parts: Option<Seq<PredicateV>>,
    part: PredicateV,
) -> Option<Seq<PredicateV>> {
    match (parts, part) {
        (None, _) => None,
        (Some(parts), PredicateV::False) => Some(parts),
        (Some(_), PredicateV::True) => None,
        (Some(parts), PredicateV::Or(nested)) => Some(parts + nested),
        (Some(parts), part) => Some(parts.push(part)),
    }
}

/// The conjunction of `parts`.
pub open spec fn conjunction_of(parts: Option<Seq<PredicateV>>) -> PredicateV {
    match parts {
        None => PredicateV::False,
        Some(parts) => if parts.len() == 0 {
            PredicateV::True
        } else if parts.len() == 1 {
            parts[0]
        } else {
            PredicateV::And(parts)
        },
    }
}

/// The disjunction of `parts`.
pub open spec fn disjunction_of(parts: Option<Seq<PredicateV>>) -> PredicateV {
    match parts {
        None => PredicateV::True,
        Some(parts) => if parts.len() == 0 {
            PredicateV::False
        } else if parts.len() == 1 {
            parts[0]
        } else {
            PredicateV::Or(parts)
        },
    }
}

/// `predicate`, unless it is known to be true or false.
pub open spec fn decided(predicate: PredicateV) -> PredicateV {
    match truth_of(predicate) {
        Truth::True => PredicateV::True,
        Truth::False => PredicateV::False,
        Truth::Unknown => predicate,
    }
}

/// The normal form of a predicate.
///
/// Conjunctions and disjunctions are flat, without constants; conjunctions hold no part twice.
/// What is known to be true or false becomes a constant.
pub open spec fn normalized(predicate: PredicateV) -> PredicateV
    decreases predicate, 0int,
{
    match predicate {
        PredicateV::Not(inner) => negated(*inner),
        PredicateV::And(inner) => conjunction_of(all_normalized(inner, Some(Seq::empty()), 0)),
        PredicateV::Or(inner) => disjunction_of(any_normalized(inner, Some(Seq::empty()), 0)),
        PredicateV::Implies(left, right) => match (truth_of(*left), truth_of(*right)) {
            (Truth::False, _) => PredicateV::True,
            (_, Truth::True) => PredicateV::True,
            (Truth::True, Truth::False) => PredicateV::False,
            (Truth::True, Truth::Unknown) => *right,
            (Truth::Unknown, Truth::False) => negated(*left),
            (Truth::Unknown, Truth::Unknown) => predicate,
        },
        PredicateV::Iff(left, right) => match (truth_of(*left), truth_of(*right)) {
            (Truth::True, Truth::True) => PredicateV::True,
            (Truth::False, Truth::False) => PredicateV::True,
            (Truth::True, Truth::False) => PredicateV::False,
            (Truth::False, Truth::True) => PredicateV::False,
            (Truth::True, Truth::Unknown) => *right,
            (Truth::Unknown, Truth::True) => *left,
            (Truth::False, Truth::Unknown) => negated(*right),
            (Truth::Unknown, Truth::False) => negated(*left),
            (Truth::Unknown, Truth::Unknown) => predicate,
        },
        PredicateV::Exists(_, inner) | PredicateV::Forall(_, inner) => match truth_of(*inner) {
            Truth::True => PredicateV::True,
            Truth::False => PredicateV::False,
            Truth::Unknown => predicate,
        },
        _ => decided(predicate),
    }
}

/// The normal form of the negation of a predicate.
pub open spec fn negated(inner: PredicateV) -> PredicateV
    decreases inner, 0int,
{
    match inner {
        PredicateV::True => PredicateV::False,
        PredicateV::False => PredicateV::True,
        PredicateV::Not(inner) => *inner,
        PredicateV::And(_) => PredicateV::Not(Box::new(inner)),
        PredicateV::Or(parts) => conjunction_of(all_negated(parts, Some(Seq::empty()), 0)),
        _ => match truth_of(inner) {
            Truth::True => PredicateV::False,
            Truth::False => PredicateV::True,
            Truth::Unknown => PredicateV::Not(Box::new(inner)),
        },
    }
}

/// `parts` with the normal forms of the predicates from `from` on.
pub open spec fn all_normalized(
    predicates: Seq<PredicateV>,
    parts: Option<Seq<PredicateV>>,
    from: int,
) -> Option<Seq<PredicateV>>
    decreases predicates, predicates.len() - from,
{
    if 0 <= from < predicates.len() {
        all_normalized(predicates, conjoined_part(parts, normalized(predicates[from])), from + 1)
    } else {
        parts
    }
}

/// `parts` with the normal forms of the predicates from `from` on.
pub open spec fn any_normalized(
    predicates: Seq<PredicateV>,
    parts: Option<Seq<PredicateV>>,
    from: int,
) -> Option<Seq<PredicateV>>
    decreases predicates, predicates.len() - from,
{
    if 0 <= from < predicates.len() {
        any_normalized(predicates, disjoined_part(parts, normalized(predicates[from])), from + 1)
    } else {
        parts
    }
}

/// `parts` with the normal forms of the negations of the predicates from `from` on.
pub open spec fn all_negated(
    predicates: Seq<PredicateV>,
    parts: Option<Seq<PredicateV>>,
    from: int,
) -> Option<Seq<PredicateV>>
    decreases predicates, predicates.len() - from,
{
    if 0 <= from < predicates.len() {
        all_negated(predicates, conjoined_part(parts, negated(predicates[from])), from + 1)
    } else {
        parts
    }
}

/// Once a conjunction is false, it stays so.
proof fn lemma_all_normalized_none(predicates: Seq<PredicateV>, from: int)
    ensures
        all_normalized(predicates, None, from) is None,
        all_negated(predicates, None, from) is None,
        any_normalized(predicates, None, from) is None,
    decreases predicates.len() - from,
{
    if 0 <= from < predicates.len() {
        lemma_all_normalized_none(predicates, from + 1);
    }
}

/// Put `predicate` behind `predicates` unless it is among them.
pub(crate) fn add_unique(predicates: &mut Vec<Predicate>, predicate: Predicate)
    ensures
        deep(final(predicates)@) == push_unique(deep(old(predicates)@), predicate@),
{
    if !contains(predicates, &predicate) {
        predicates.push(predicate);
    }
}

/// Put those of `added` that are new behind `predicates`.
pub(crate) fn add_all_unique(predicates: &mut Vec<Predicate>, added: &Vec<Predicate>)
    ensures
        deep(final(predicates)@) == unique_from(deep(old(predicates)@), deep(added@), 0),
{
    let mut i: usize = 0;
    while i < added.len()
        invariant
            i <= added.len(),
            unique_from(deep(old(predicates)@), deep(added@), 0) == unique_from(
                deep(predicates@),
                deep(added@),
                i as int,
            ),
        decreases added.len() - i,
    {
        assert(deep(added@)[i as int] == added[i as int]@);
        add_unique(predicates, added[i].duplicate());
        i += 1;
    }
}

/// Add a part in normal form to a conjunction, and say whether it is still not false.
fn conjoin_part(parts: &mut Vec<Predicate>, part: Predicate) -> (alive: bool)
    ensures
        conjoined_part(Some(deep(old(parts)@)), part@) == if alive {
            Some(deep(final(parts)@))
        } else {
            None
        },
{
    proof {
        lemma_predicate_view(part);
    }
    match part {
        Predicate::True => true,
        Predicate::False => false,
        Predicate::And(nested) => {
            add_all_unique(parts, &nested);
            true
        },
        part => {
            add_unique(parts, part);
            true
        },
    }
}

/// Add a part in normal form to a disjunction, and say whether it is still not true.
fn disjoin_part(parts: &mut Vec<Predicate>, part: Predicate) -> (alive: bool)
    ensures
        disjoined_part(Some(deep(old(parts)@)), part@) == if alive {
            Some(deep(final(parts)@))
        } else {
            None
        },
{
    proof {
        lemma_predicate_view(part);
    }
    match part {
        Predicate::False => true,
        Predicate::True => false,
        Predicate::Or(nested) => {
            let mut nested = nested;
            parts.append(&mut nested);
            true
        },
        part => {
            parts.push(part);
            true
        },
    }
}

fn finish_conjunction(parts: Vec<Predicate>) -> (result: Predicate)
    ensures
        result@ == conjunction_of(Some(deep(parts@))),
{
    let mut parts = parts;
    if parts.len() == 0 {
        Predicate::constant(true)
    } else if parts.len() == 1 {
        assert(deep(parts@)[0] == parts[0]@);
        parts.remove(0)
    } else {
        Predicate::conjunction(parts)
    }
}

fn finish_disjunction(parts: Vec<Predicate>) -> (result: Predicate)
    ensures
        result@ == disjunction_of(Some(deep(parts@))),
{
    let mut parts = parts;
    if parts.len() == 0 {
        Predicate::constant(false)
    } else if parts.len() == 1 {
        assert(deep(parts@)[0] == parts[0]@);
        parts.remove(0)
    } else {
        Predicate::disjunction(parts)
    }
}

fn decide(predicate: &Predicate) -> (result: Predicate)
    ensures
        result@ == decided(predicate@),
{
    match predicate_truth(predicate) {
        Truth::True => Predicate::constant(true),
        Truth::False => Predicate::constant(false),
        Truth::Unknown => predicate.duplicate(),
    }
}

/// The normal form of a predicate.
pub(crate) fn normalize_predicate(predicate: &Predicate) -> (result: Predicate)
    ensures
        result@ == normalized(predicate@),
    decreases predicate,
{
    proof {
        lemma_predicate_view(*predicate);
    }
    match predicate {
        Predicate::Not(inner) => negate_predicate(inner),
        Predicate::And(inner) => normalize_conjunction(inner),
        Predicate::Or(inner) => normalize_disjunction(inner),
        Predicate::Implies(left, right) => {
            match (predicate_truth(left), predicate_truth(right)) {
                (Truth::False, _) => Predicate::constant(true),
                (_, Truth::True) => Predicate::constant(true),
                (Truth::True, Truth::False) => Predicate::constant(false),
                (Truth::True, Truth::Unknown) => right.duplicate(),
                (Truth::Unknown, Truth::False) => negate_predicate(left),
                (Truth::Unknown, Truth::Unknown) => predicate.duplicate(),
            }
        },
        Predicate::Iff(left, right) => {
            match (predicate_truth(left), predicate_truth(right)) {
                (Truth::True, Truth::True) => Predicate::constant(true),
                (Truth::False, Truth::False) => Predicate::constant(true),
                (Truth::True, Truth::False) => Predicate::constant(false),
                (Truth::False, Truth::True) => Predicate::constant(false),
                (Truth::True, Truth::Unknown) => right.duplicate(),
                (Truth::Unknown, Truth::True) => left.duplicate(),
                (Truth::False, Truth::Unknown) => negate_predicate(right),
                (Truth::Unknown, Truth::False) => negate_predicate(left),
                (Truth::Unknown, Truth::Unknown) => predicate.duplicate(),
            }
        },
        Predicate::Exists(_, inner) | Predicate::Forall(_, inner) => {
            match predicate_truth(inner) {
                Truth::True => Predicate::constant(true),
                Truth::False => Predicate::constant(false),
                Truth::Unknown => predicate.duplicate(),
            }
        },
        _ => decide(predicate),
    }
}

fn negate_predicate(inner: &Predicate) -> (result: Predicate)
    ensures
        result@ == negated(inner@),
    decreases inner,
{
    proof {
        lemma_predicate_view(*inner);
    }
    match inner {
        Predicate::True => Predicate::constant(false),
        Predicate::False => Predicate::constant(true),
        Predicate::Not(inner) => inner.duplicate(),
        Predicate::And(_) => Predicate::negation(inner.duplicate()),
        Predicate::Or(parts) => negate_disjunction(parts),
        _ => match predicate_truth(inner) {
            Truth::True => Predicate::constant(false),
            Truth::False => Predicate::constant(true),
            Truth::Unknown => Predicate::negation(inner.duplicate()),
        },
    }
}

fn normalize_conjunction(predicates: &Vec<Predicate>) -> (result: Predicate)
    ensures
        result@ == conjunction_of(all_normalized(deep(predicates@), Some(Seq::empty()), 0)),
    decreases predicates,
{
    let mut parts: Vec<Predicate> = Vec::new();
    let mut i: usize = 0;
    while i < predicates.len()
        invariant
            i <= predicates.len(),
            all_normalized(deep(predicates@), Some(Seq::empty()), 0) == all_normalized(
                deep(predicates@),
                Some(deep(parts@)),
                i as int,
            ),
        decreases predicates.len() - i,
    {
        assert(deep(predicates@)[i as int] == predicates[i as int]@);
        let part = normalize_predicate(&predicates[i]);
        if !conjoin_part(&mut parts, part) {
            proof {
                lemma_all_normalized_none(deep(predicates@), i + 1);
            }
            return Predicate::constant(false);
        }
        i += 1;
    }
    finish_conjunction(parts)
}

fn normalize_disjunction(predicates: &Vec<Predicate>) -> (result: Predicate)
    ensures
        result@ == disjunction_of(any_normalized(deep(predicates@), Some(Seq::empty()), 0)),
    decreases predicates,
{
    let mut parts: Vec<Predicate> = Vec::new();
    let mut i: usize = 0;
    while i < predicates.len()
        invariant
            i <= predicates.len(),
            any_normalized(deep(predicates@), Some(Seq::empty()), 0) == any_normalized(
                deep(predicates@),
                Some(deep(parts@)),
                i as int,
            ),
        decreases predicates.len() - i,
    {
        assert(deep(predicates@)[i as int] == predicates[i as int]@);
        let part = normalize_predicate(&predicates[i]);
        if !disjoin_part(&mut parts, part) {
            proof {
                lemma_all_normalized_none(deep(predicates@), i + 1);
            }
            return Predicate::constant(true);
        }
        i += 1;
    }
    finish_disjunction(parts)
}

fn negate_disjunction(predicates: &Vec<Predicate>) -> (result: Predicate)
    ensures
        result@ == conjunction_of(all_negated(deep(predicates@), Some(Seq::empty()), 0)),
    decreases predicates,
{
    let mut parts: Vec<Predicate> = Vec::new();
    let mut i: usize = 0;
    while i < predicates.len()
        invariant
            i <= predicates.len(),
            all_negated(deep(predicates@), Some(Seq::empty()), 0) == all_negated(
                deep(predicates@),
                Some(deep(parts@)),
                i as int,
            ),
        decreases predicates.len() - i,
    {
        assert(deep(predicates@)[i as int] == predicates[i as int]@);
        let part = negate_predicate(&predicates[i]);
        if !conjoin_part(&mut parts, part) {
            proof {
                lemma_all_normalized_none(deep(predicates@), i + 1);
            }
            return Predicate::constant(false);
        }
        i += 1;
    }
    finish_conjunction(parts)
}

// ---------------------------------------------------------------------------------------------
// Boolean functions and equality of K items
// ---------------------------------------------------------------------------------------------
/// The item of a K sequence of one item.
pub open spec fn sequence_item(term: TermV) -> Option<TermV> {
    match term {
        TermV::Application { symbol, arguments, .. } => if symbol.name == "kseq"@
            && arguments.len() == 2 && arguments[1] is Application
            && arguments[1]->Application_symbol.name == "dotk"@ {
            Some(arguments[0])
        } else {
            None
        },
        _ => None,
    }
}

/// The item of a K sequence of one item.
pub(crate) fn k_sequence_item(term: &Term) -> (result: Option<&Term>)
    ensures
        result.deep_view() == sequence_item(term@),
{
    proof {
        lemma_term_view(*term);
    }
    match term {
        Term::Application { symbol, arguments, .. } => {
            if !is_text(&symbol.name, "kseq") || arguments.len() != 2 {
                return None;
            }
            proof {
                assert(deep(arguments@)[0] == arguments[0]@);
                assert(deep(arguments@)[1] == arguments[1]@);
                lemma_term_view(arguments[1]);
            }
            match &arguments[1] {
                Term::Application { symbol: end, .. } => {
                    if is_text(&end.name, "dotk") {
                        Some(&arguments[0])
                    } else {
                        None
                    }
                },
                _ => None,
            }
        },
        _ => None,
    }
}

/// Two terms at the larger of their sorts, where one sort is a subsort of the other.
pub open spec fn aligned(sorts: SortGraphV, left: TermV, right: TermV) -> Option<(TermV, TermV)> {
    let left_sort = sort_of(left);
    let right_sort = sort_of(right);
    if left_sort == right_sort {
        Some((left, right))
    } else {
        match (subsort(sorts, left_sort, right_sort), subsort(sorts, right_sort, left_sort)) {
            (Err(_), _) => None,
            (Ok(true), _) => Some((injected(left_sort, right_sort, left), right)),
            (Ok(false), Ok(true)) => Some((left, injected(right_sort, left_sort, right))),
            (Ok(false), _) => None,
        }
    }
}

fn align_subsort_operands<K: Kernel>(
    definition: &BackendDefinition<K>,
    left: &Term,
    right: &Term,
) -> (result: Option<(Term, Term)>)
    ensures
        result.deep_view() == aligned(definition.sort_graph@, left@, right@),
{
    let left_sort = left.sort();
    let right_sort = right.sort();
    if left_sort.equals(&right_sort) {
        return Some((left.duplicate(), right.duplicate()));
    }
    match definition.sort_graph.check_subsort(&left_sort, &right_sort) {
        Err(_) => None,
        Ok(true) => Some(
            (Term::injection(left_sort, right_sort, left.duplicate()), right.duplicate()),
        ),
        Ok(false) => match definition.sort_graph.check_subsort(&right_sort, &left_sort) {
            Ok(true) => Some(
                (left.duplicate(), Term::injection(right_sort, left_sort, right.duplicate())),
            ),
            _ => None,
        },
    }
}

/// A term of sort Bool that is not a literal as a predicate, or its negation.
pub open spec fn literal_equality(term: TermV, value: bool) -> Option<PredicateV> {
    if sort_of(term) != simple_sort("SortBool"@) || bool_value_of(term) is Some {
        None
    } else if value {
        Some(PredicateV::Term(term))
    } else {
        Some(PredicateV::Not(Box::new(PredicateV::Term(term))))
    }
}

fn boolean_literal_equality(term: &Term, value: bool) -> (result: Option<Predicate>)
    ensures
        result.deep_view() == literal_equality(term@, value),
{
    if !term.sort().is_simple("SortBool") || bool_value(term).is_some() {
        return None;
    }
    if value {
        Some(Predicate::of_term(term.duplicate()))
    } else {
        Some(Predicate::negation(Predicate::of_term(term.duplicate())))
    }
}

/// Whether an application of an equality function being `value` means that the operands differ,
/// and whether the operands are K sequences.
pub open spec fn equality_hook(hook: Option<Seq<char>>, value: bool) -> Option<(bool, bool)> {
    if hook == Some("KEQUAL.eq"@) {
        Some((!value, true))
    } else if hook == Some("KEQUAL.ne"@) {
        Some((value, true))
    } else if hook == Some("INT.eq"@) {
        Some((!value, false))
    } else if hook == Some("INT.ne"@) {
        Some((value, false))
    } else {
        None
    }
}

/// The operands of an equality function.
pub open spec fn equality_operands(
    sorts: SortGraphV,
    left: TermV,
    right: TermV,
    sequences: bool,
) -> Option<(TermV, TermV)> {
    if sequences {
        match (sequence_item(left), sequence_item(right)) {
            (Some(left), Some(right)) => aligned(sorts, left, right),
            _ => None,
        }
    } else {
        Some((left, right))
    }
}

/// What `application` being equal to `value` means; `original` where it means nothing else.
pub open spec fn hooked_meaning<K: Kernel>(
    definition: BackendDefinition<K>,
    application: TermV,
    value: bool,
    original: PredicateV,
) -> PredicateV
    decreases application,
{
    let literal = match literal_equality(application, value) {
        Some(predicate) => predicate,
        None => original,
    };
    match application {
        TermV::Application { symbol, arguments, .. } => {
            let hook = symbol.attributes.hook;
            if (hook == Some("BOOL.and"@) || hook == Some("BOOL.or"@)) && arguments.len() == 2 {
                proof {
                    assert(decreases_to!(application => application->Application_arguments));
                    assert(decreases_to!(arguments => arguments[0]));
                    assert(decreases_to!(arguments => arguments[1]));
                }
                let operands = seq![
                    hooked_meaning(
                        definition,
                        arguments[0],
                        value,
                        PredicateV::Equals(arguments[0], bool_literal(value)),
                    ),
                    hooked_meaning(
                        definition,
                        arguments[1],
                        value,
                        PredicateV::Equals(arguments[1], bool_literal(value)),
                    ),
                ];
                normalized(
                    if (hook == Some("BOOL.and"@)) == value {
                        PredicateV::And(operands)
                    } else {
                        PredicateV::Or(operands)
                    },
                )
            } else if hook == Some("BOOL.not"@) && arguments.len() == 1 {
                proof {
                    assert(decreases_to!(application => application->Application_arguments));
                    assert(decreases_to!(arguments => arguments[0]));
                }
                hooked_meaning(
                    definition,
                    arguments[0],
                    !value,
                    PredicateV::Equals(arguments[0], bool_literal(!value)),
                )
            } else {
                match equality_hook(hook, value) {
                    None => literal,
                    Some((negate, sequences)) => if arguments.len() != 2 {
                        original
                    } else {
                        match equality_operands(
                            definition.sort_graph@,
                            arguments[0],
                            arguments[1],
                            sequences,
                        ) {
                            None => original,
                            Some((left, right)) => {
                                let equality = PredicateV::Equals(left, right);
                                let condition = if negate {
                                    PredicateV::Not(Box::new(equality))
                                } else {
                                    equality
                                };
                                normalized(
                                    PredicateV::And(
                                        (definition.kernel.ceil(left) + definition.kernel.ceil(
                                            right,
                                        )).push(condition),
                                    ),
                                )
                            },
                        }
                    },
                }
            }
        },
        _ => literal,
    }
}

/// What an equality, one side of which may be a literal of sort Bool, means.
pub open spec fn hooked_equality<K: Kernel>(
    definition: BackendDefinition<K>,
    left: TermV,
    right: TermV,
) -> PredicateV {
    let original = PredicateV::Equals(left, right);
    match (bool_value_of(right), bool_value_of(left)) {
        (Some(value), _) => hooked_meaning(definition, left, value, original),
        (None, Some(value)) => hooked_meaning(definition, right, value, original),
        (None, None) => original,
    }
}

/// A predicate with Boolean functions and equality functions taken as connectives and equalities.
///
/// Operands of K equality are lowered to the items of their sequences. The operands have to be
/// defined: a Boolean result of an equality implies that they are.
pub open spec fn hooked_normalized<K: Kernel>(
    definition: BackendDefinition<K>,
    predicate: PredicateV,
) -> PredicateV {
    match predicate {
        PredicateV::Term(term) => {
            let meaning = hooked_equality(definition, term, bool_literal(true));
            match meaning {
                PredicateV::Equals(left, right) => if left == term && bool_value_of(right) == Some(
                    true,
                ) {
                    predicate
                } else {
                    meaning
                },
                _ => meaning,
            }
        },
        PredicateV::Equals(left, right) => hooked_equality(definition, left, right),
        _ => predicate,
    }
}

fn is_hook(hook: &Option<String>, expected: &str) -> (result: bool)
    ensures
        result == (hook.deep_view() == Some(expected@)),
{
    match hook {
        Some(hook) => is_text(hook, expected),
        None => false,
    }
}

fn find_equality_hook(hook: &Option<String>, value: bool) -> (result: Option<(bool, bool)>)
    ensures
        result == equality_hook(hook.deep_view(), value),
{
    if is_hook(hook, "KEQUAL.eq") {
        Some((!value, true))
    } else if is_hook(hook, "KEQUAL.ne") {
        Some((value, true))
    } else if is_hook(hook, "INT.eq") {
        Some((!value, false))
    } else if is_hook(hook, "INT.ne") {
        Some((value, false))
    } else {
        None
    }
}

fn find_equality_operands<K: Kernel>(
    definition: &BackendDefinition<K>,
    left: &Term,
    right: &Term,
    sequences: bool,
) -> (result: Option<(Term, Term)>)
    ensures
        result.deep_view() == equality_operands(
            definition.sort_graph@,
            left@,
            right@,
            sequences,
        ),
{
    if sequences {
        match (k_sequence_item(left), k_sequence_item(right)) {
            (Some(left), Some(right)) => align_subsort_operands(definition, left, right),
            _ => None,
        }
    } else {
        Some((left.duplicate(), right.duplicate()))
    }
}

fn equality_condition<K: Kernel>(
    definition: &BackendDefinition<K>,
    left: Term,
    right: Term,
    negate: bool,
) -> (result: Predicate)
    ensures
        result@ == ({
            let equality = PredicateV::Equals(left@, right@);
            let condition = if negate {
                PredicateV::Not(Box::new(equality))
            } else {
                equality
            };
            normalized(
                PredicateV::And(
                    (definition.kernel.ceil(left@) + definition.kernel.ceil(right@)).push(
                        condition,
                    ),
                ),
            )
        }),
{
    let mut predicates = definition.kernel.ceil_term(&left);
    let mut more = definition.kernel.ceil_term(&right);
    predicates.append(&mut more);
    let equality = Predicate::equality(left, right);
    let condition = if negate {
        Predicate::negation(equality)
    } else {
        equality
    };
    predicates.push(condition);
    normalize_predicate(&Predicate::conjunction(predicates))
}

fn find_hooked_meaning<K: Kernel>(
    definition: &BackendDefinition<K>,
    application: &Term,
    value: bool,
    original: Predicate,
) -> (result: Predicate)
    ensures
        result@ == hooked_meaning(*definition, application@, value, original@),
    decreases application@,
{
    proof {
        lemma_term_view(*application);
    }
    match application {
        Term::Application { symbol, arguments, .. } => {
            let hook = &symbol.attributes.hook;
            let is_and: bool = is_hook(hook, "BOOL.and");
            if (is_and || is_hook(hook, "BOOL.or")) && arguments.len() == 2 {
                proof {
                    let kids = application@->Application_arguments;
                    assert(kids[0] == arguments[0]@);
                    assert(kids[1] == arguments[1]@);
                    assert(decreases_to!(application@ => application@->Application_arguments));
                    assert(decreases_to!(kids => kids[0]));
                    assert(decreases_to!(kids => kids[1]));
                }
                let first = find_hooked_meaning(
                    definition,
                    &arguments[0],
                    value,
                    Predicate::equality(arguments[0].duplicate(), bool_domain_value(value)),
                );
                let second = find_hooked_meaning(
                    definition,
                    &arguments[1],
                    value,
                    Predicate::equality(arguments[1].duplicate(), bool_domain_value(value)),
                );
                let ghost expected = seq![first@, second@];
                let mut operands: Vec<Predicate> = Vec::new();
                operands.push(first);
                operands.push(second);
                assert(deep(operands@) =~= expected);
                let combined = if is_and == value {
                    Predicate::conjunction(operands)
                } else {
                    Predicate::disjunction(operands)
                };
                return normalize_predicate(&combined);
            }
            if is_hook(hook, "BOOL.not") && arguments.len() == 1 {
                proof {
                    let kids = application@->Application_arguments;
                    assert(kids[0] == arguments[0]@);
                    assert(decreases_to!(application@ => application@->Application_arguments));
                    assert(decreases_to!(kids => kids[0]));
                }
                return find_hooked_meaning(
                    definition,
                    &arguments[0],
                    !value,
                    Predicate::equality(arguments[0].duplicate(), bool_domain_value(!value)),
                );
            }
            match find_equality_hook(hook, value) {
                None => match boolean_literal_equality(application, value) {
                    Some(predicate) => predicate,
                    None => original,
                },
                Some((negate, sequences)) => {
                    if arguments.len() != 2 {
                        return original;
                    }
                    assert(application@->Application_arguments[0] == arguments[0]@);
                    assert(application@->Application_arguments[1] == arguments[1]@);
                    match find_equality_operands(
                        definition,
                        &arguments[0],
                        &arguments[1],
                        sequences,
                    ) {
                        None => original,
                        Some((left, right)) => equality_condition(definition, left, right, negate),
                    }
                },
            }
        },
        _ => match boolean_literal_equality(application, value) {
            Some(predicate) => predicate,
            None => original,
        },
    }
}

fn find_hooked_equality<K: Kernel>(
    definition: &BackendDefinition<K>,
    left: &Term,
    right: &Term,
) -> (result: Predicate)
    ensures
        result@ == hooked_equality(*definition, left@, right@),
{
    let original = Predicate::equality(left.duplicate(), right.duplicate());
    if let Some(value) = bool_value(right) {
        return find_hooked_meaning(definition, left, value, original);
    }
    if let Some(value) = bool_value(left) {
        return find_hooked_meaning(definition, right, value, original);
    }
    original
}

/// Take Boolean functions and equality functions as connectives and equalities.
pub(crate) fn normalize_hooked_boolean_predicate<K: Kernel>(
    definition: &BackendDefinition<K>,
    predicate: &Predicate,
) -> (result: Predicate)
    ensures
        result@ == hooked_normalized(*definition, predicate@),
{
    proof {
        lemma_predicate_view(*predicate);
    }
    match predicate {
        Predicate::Term(term) => {
            let meaning = find_hooked_equality(definition, term, &bool_domain_value(true));
            proof {
                lemma_predicate_view(meaning);
            }
            if let Predicate::Equals(left, right) = &meaning {
                if let Some(true) = bool_value(right) {
                    if left.equals(term) {
                        return predicate.duplicate();
                    }
                }
            }
            meaning
        },
        Predicate::Equals(left, right) => find_hooked_equality(definition, left, right),
        _ => predicate.duplicate(),
    }
}

/// An equality of injections reduced to what it comes down to.
pub open spec fn injection_normalized<K: Kernel>(
    definition: BackendDefinition<K>,
    predicate: PredicateV,
) -> PredicateV {
    match predicate {
        PredicateV::Equals(left, right) => match injection_equality(
            Some(definition.sort_graph@),
            left,
            right,
        ) {
            Some(InjectionEqualityV::Direct(left, right)) => hooked_equality(
                definition,
                left,
                right,
            ),
            Some(InjectionEqualityV::Split(left, right)) => hooked_equality(
                definition,
                left,
                right,
            ),
            Some(InjectionEqualityV::Distinct) => PredicateV::False,
            Some(InjectionEqualityV::Unknown) => predicate,
            None => predicate,
        },
        _ => predicate,
    }
}

/// Reduce an equality of injections to what it comes down to.
pub(crate) fn normalize_injection_equality<K: Kernel>(
    definition: &BackendDefinition<K>,
    predicate: &Predicate,
) -> (result: Predicate)
    ensures
        result@ == injection_normalized(*definition, predicate@),
{
    proof {
        lemma_predicate_view(*predicate);
    }
    match predicate {
        Predicate::Equals(left, right) => match match_injection_equality(
            Some(&definition.sort_graph),
            left,
            right,
        ) {
            Some(InjectionEquality::Direct(left, right)) => find_hooked_equality(
                definition,
                &left,
                &right,
            ),
            Some(InjectionEquality::Split(left, right)) => find_hooked_equality(
                definition,
                &left,
                &right,
            ),
            Some(InjectionEquality::Distinct) => Predicate::constant(false),
            Some(InjectionEquality::Unknown) => predicate.duplicate(),
            None => predicate.duplicate(),
        },
        _ => predicate.duplicate(),
    }
}

} // verus!
