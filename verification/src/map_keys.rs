//! Matches of maps by equalities of their keys.

use vstd::prelude::*;
use crate::construct::{collect_variables, constructor_like, map_term, variables_into, variables_of};
use crate::definition::BackendDefinition;
use crate::kernel::Kernel;
use crate::matcher::{definition_context, match_terms_in_definition, terms_matched};
use crate::matching::{MatchMode, MatchResult, MatchResultV};
use crate::model::{contains, deep, group_deep, Value};
use crate::normalize::add_unique;
use crate::index::push_unique;
use crate::predicate::{Predicate, PredicateV};
use crate::rewrite_types::{PartialRuleMatch, PartialRuleMatchV};
use crate::splits::without_pair;
use crate::substitution::{compose, composed, substitute, substituted, Substitution, SubstitutionV};
use crate::term::{
    lemma_term_view, CollectionDefinition, CollectionDefinitionV, Term, TermV, Variable, VariableV,
};
use crate::truth::{predicate_truth, truth_of, Truth};

verus! {

broadcast use group_deep;

/// A map with a rest to be matched with a map without one, by equalities of keys.
#[derive(Debug, PartialEq, Eq)]
pub struct MapKeySplit {
    pub definition: CollectionDefinition,
    pub entries: Vec<(Term, Term)>,
    pub rest: Term,
    pub subject_entries: Vec<(Term, Term)>,
}

/// The view of [`MapKeySplit`].
pub struct MapKeySplitV {
    pub definition: CollectionDefinitionV,
    pub entries: Seq<(TermV, TermV)>,
    pub rest: TermV,
    pub subject_entries: Seq<(TermV, TermV)>,
}

impl View for MapKeySplit {
    type V = MapKeySplitV;

    open spec fn view(&self) -> MapKeySplitV {
        MapKeySplitV {
            definition: self.definition@,
            entries: deep(self.entries@),
            rest: self.rest@,
            subject_entries: deep(self.subject_entries@),
        }
    }
}

impl DeepView for MapKeySplit {
    type V = MapKeySplitV;

    open spec fn deep_view(&self) -> MapKeySplitV {
        self@
    }
}

impl Value for MapKeySplit {
    fn duplicate(&self) -> (copy: Self) {
        MapKeySplit {
            definition: self.definition.duplicate(),
            entries: self.entries.duplicate(),
            rest: self.rest.duplicate(),
            subject_entries: self.subject_entries.duplicate(),
        }
    }

    fn equals(&self, other: &Self) -> (same: bool) {
        self.definition.equals(&other.definition)
            && self.entries.equals(&other.entries)
            && self.rest.equals(&other.rest)
            && self.subject_entries.equals(&other.subject_entries)
    }
}

/// The variables of the values from `from` on, put into `found`.
pub open spec fn value_variables(
    bindings: SubstitutionV,
    found: Seq<VariableV>,
    from: int,
) -> Seq<VariableV>
    decreases bindings.len() - from,
{
    if from >= bindings.len() {
        found
    } else {
        value_variables(bindings, variables_into(bindings[from].1, found), from + 1)
    }
}

/// The variables in the values of a substitution.
pub fn substitution_value_variables(substitution: &Substitution) -> (result: Vec<Variable>)
    ensures
        deep(result@) == value_variables(substitution@, Seq::empty(), 0),
{
    let mut found: Vec<Variable> = Vec::new();
    let bindings = &substitution.bindings;
    let mut i: usize = 0;
    while i < bindings.len()
        invariant
            i <= bindings.len(),
            substitution@ == deep(bindings@),
            value_variables(substitution@, Seq::empty(), 0) == value_variables(
                substitution@,
                deep(found@),
                i as int,
            ),
        decreases bindings.len() - i,
    {
        assert(deep(bindings@)[i as int].1 == bindings[i as int].1@);
        collect_variables(&bindings[i].1, &mut found);
        i += 1;
    }
    found
}

/// Whether every key is either a constructor term or a term of protected variables, with at least
/// one variable.
pub open spec fn key_is_rigid(key: TermV, protected: Seq<VariableV>) -> bool {
    constructor_like(key) || (variables_of(key).len() > 0 && forall|i: int|
        0 <= i < variables_of(key).len() ==> protected.contains(#[trigger] variables_of(key)[i]))
}

/// The number of keys among the first `count` entries that are variables.
pub open spec fn variable_keys(entries: Seq<(TermV, TermV)>, count: int) -> nat
    decreases count,
{
    if count <= 0 {
        0
    } else {
        variable_keys(entries, count - 1) + if entries[count - 1].0 is Variable {
            1nat
        } else {
            0nat
        }
    }
}

/// A pair of a map of rigid keys and a free rest, and a closed map with enough variable keys.
pub open spec fn map_key_split(
    pattern: TermV,
    subject: TermV,
    protected: Seq<VariableV>,
) -> Option<MapKeySplitV> {
    match (pattern, subject) {
        (
            TermV::KMap { definition, entries, rest: Some(rest) },
            TermV::KMap { definition: other, entries: subject_entries, rest: None },
        ) => if definition == other && entries.len() > 0 && (forall|i: int|
            0 <= i < entries.len() ==> key_is_rigid((#[trigger] entries[i]).0, protected))
            && *rest is Variable && !protected.contains(rest->Variable_0) && entries.len()
            <= variable_keys(subject_entries, subject_entries.len() as int) {
            Some(MapKeySplitV { definition, entries, rest: *rest, subject_entries })
        } else {
            None
        },
        _ => None,
    }
}

/// The first pair, from `from` on, of maps that match by equalities of keys.
pub open spec fn first_map_key_split(
    pairs: Seq<(TermV, TermV)>,
    substitution: SubstitutionV,
    protected: Seq<VariableV>,
    from: int,
) -> Option<(int, MapKeySplitV)>
    decreases pairs.len() - from,
{
    if from >= pairs.len() {
        None
    } else {
        match map_key_split(
            substituted(pairs[from].0, substitution),
            substituted(pairs[from].1, substitution),
            protected,
        ) {
            Some(split) => Some((from, split)),
            None => first_map_key_split(pairs, substitution, protected, from + 1),
        }
    }
}

/// `partial` with `pattern` matched with `subject`, unless they do not match.
pub open spec fn further_matched<K: Kernel>(
    definition: &BackendDefinition<K>,
    pattern: TermV,
    subject: TermV,
    partial: PartialRuleMatchV,
) -> Option<PartialRuleMatchV> {
    match terms_matched(
        definition_context(MatchMode::Rewrite, definition),
        substituted(pattern, partial.substitution),
        subject,
    ) {
        MatchResultV::Failed(_) => None,
        MatchResultV::Success(found) => Some(
            PartialRuleMatchV {
                substitution: composed(found, partial.substitution),
                ..partial
            },
        ),
        MatchResultV::Indeterminate { substitution: found, remainder } => Some(
            PartialRuleMatchV {
                substitution: composed(found, partial.substitution),
                remainder: partial.remainder + remainder,
                ..partial
            },
        ),
    }
}

/// The matches that pair the pattern's entries from `index` on with distinct entries of
/// `remaining` whose keys are variables, put behind `found`.
pub open spec fn keys_matched<K: Kernel>(
    definition: &BackendDefinition<K>,
    split: MapKeySplitV,
    index: int,
    remaining: Seq<(TermV, TermV)>,
    partial: PartialRuleMatchV,
    found: Seq<PartialRuleMatchV>,
) -> Seq<PartialRuleMatchV>
    decreases split.entries.len() - index, 1int, 0int,
{
    if index >= split.entries.len() {
        match further_matched(
            definition,
            split.rest,
            map_term(split.definition, remaining, None),
            partial,
        ) {
            Some(matched) => found.push(matched),
            None => found,
        }
    } else {
        key_candidates(definition, split, index, remaining, partial, found, 0)
    }
}

/// The matches that pair the pattern's entry at `index` with one of `remaining` from `from` on, put
/// behind `found`.
pub open spec fn key_candidates<K: Kernel>(
    definition: &BackendDefinition<K>,
    split: MapKeySplitV,
    index: int,
    remaining: Seq<(TermV, TermV)>,
    partial: PartialRuleMatchV,
    found: Seq<PartialRuleMatchV>,
    from: int,
) -> Seq<PartialRuleMatchV>
    decreases split.entries.len() - index, 0int, remaining.len() - from,
{
    if from >= remaining.len() || index >= split.entries.len() {
        found
    } else {
        let next = match key_paired(definition, split.entries[index], remaining[from], partial) {
            Some(matched) => keys_matched(
                definition,
                split,
                index + 1,
                remaining.remove(from),
                matched,
                found,
            ),
            None => found,
        };
        key_candidates(definition, split, index, remaining, partial, next, from + 1)
    }
}

/// `partial` with one entry of the pattern paired with one of the subject: the keys are equal and
/// the values match. Only an entry whose key is a variable can be paired.
pub open spec fn key_paired<K: Kernel>(
    definition: &BackendDefinition<K>,
    entry: (TermV, TermV),
    subject: (TermV, TermV),
    partial: PartialRuleMatchV,
) -> Option<PartialRuleMatchV> {
    let condition = PredicateV::Equals(subject.0, substituted(entry.0, partial.substitution));
    if !(subject.0 is Variable) || truth_of(condition) is False {
        None
    } else {
        match further_matched(definition, entry.1, subject.1, partial) {
            Some(matched) => Some(
                PartialRuleMatchV {
                    conditions: if truth_of(condition) is Unknown {
                        push_unique(partial.conditions, condition)
                    } else {
                        partial.conditions
                    },
                    ..matched
                },
            ),
            None => None,
        }
    }
}

/// The matches of a map of rigid keys with a closed map, one for each choice of variable keys.
pub open spec fn map_key_matches<K: Kernel>(
    definition: &BackendDefinition<K>,
    substitution: SubstitutionV,
    remainder: Seq<(TermV, TermV)>,
) -> Option<Seq<PartialRuleMatchV>> {
    match first_map_key_split(
        remainder,
        substitution,
        value_variables(substitution, Seq::empty(), 0),
        0,
    ) {
        None => None,
        Some((index, split)) => Some(
            keys_matched(
                definition,
                split,
                0,
                split.subject_entries,
                PartialRuleMatchV {
                    substitution,
                    conditions: Seq::empty(),
                    remainder: remainder.remove(index),
                },
                Seq::empty(),
            ),
        ),
    }
}

fn is_rigid_key(key: &Term, protected: &Vec<Variable>) -> (result: bool)
    ensures
        result == key_is_rigid(key@, deep(protected@)),
{
    if key.is_constructor_like() {
        return true;
    }
    let variables = key.variables();
    if variables.len() == 0 {
        return false;
    }
    let mut i: usize = 0;
    while i < variables.len()
        invariant
            i <= variables.len(),
            deep(variables@) == variables_of(key@),
            forall|k: int|
                0 <= k < i ==> deep(protected@).contains(#[trigger] variables_of(key@)[k]),
            !constructor_like(key@),
        decreases variables.len() - i,
    {
        assert(deep(variables@)[i as int] == variables[i as int]@);
        if !contains(protected, &variables[i]) {
            return false;
        }
        i += 1;
    }
    true
}

fn have_rigid_keys(entries: &Vec<(Term, Term)>, protected: &Vec<Variable>) -> (result: bool)
    ensures
        result == forall|i: int|
            0 <= i < entries@.len() ==> key_is_rigid(
                (#[trigger] deep(entries@)[i]).0,
                deep(protected@),
            ),
{
    let mut i: usize = 0;
    while i < entries.len()
        invariant
            i <= entries.len(),
            forall|k: int|
                0 <= k < i ==> key_is_rigid((#[trigger] deep(entries@)[k]).0, deep(protected@)),
        decreases entries.len() - i,
    {
        assert(deep(entries@)[i as int].0 == entries[i as int].0@);
        if !is_rigid_key(&entries[i].0, protected) {
            return false;
        }
        i += 1;
    }
    true
}

fn count_variable_keys(entries: &Vec<(Term, Term)>) -> (count: usize)
    ensures
        count == variable_keys(deep(entries@), entries@.len() as int),
{
    let mut count: usize = 0;
    let mut i: usize = 0;
    while i < entries.len()
        invariant
            i <= entries.len(),
            count <= i,
            count == variable_keys(deep(entries@), i as int),
        decreases entries.len() - i,
    {
        assert(deep(entries@)[i as int].0 == entries[i as int].0@);
        proof {
            lemma_term_view(entries[i as int].0);
        }
        if matches!(&entries[i].0, Term::Variable(_)) {
            count += 1;
        }
        i += 1;
    }
    count
}

#[verifier::spinoff_prover]
fn split_map_key_pair(pattern: &Term, subject: &Term, protected: &Vec<Variable>) -> (result: Option<
    MapKeySplit,
>)
    ensures
        result.deep_view() == map_key_split(pattern@, subject@, deep(protected@)),
{
    proof {
        lemma_term_view(*pattern);
        lemma_term_view(*subject);
    }
    if let Term::KMap { definition, entries, rest: Some(rest) } = pattern {
        if let Term::KMap { definition: other, entries: subject_entries, rest: None } = subject {
            proof {
                lemma_term_view(**rest);
            }
            if let Term::Variable(variable) = &**rest {
                if definition.equals(other) && entries.len() > 0 && have_rigid_keys(
                    entries,
                    protected,
                ) && !contains(protected, variable) && entries.len() <= count_variable_keys(
                    subject_entries,
                ) {
                    return Some(
                        MapKeySplit {
                            definition: definition.duplicate(),
                            entries: entries.duplicate(),
                            rest: (**rest).duplicate(),
                            subject_entries: subject_entries.duplicate(),
                        },
                    );
                }
            }
        }
    }
    None
}

fn find_map_key_split(pairs: &Vec<(Term, Term)>, substitution: &Substitution) -> (result: Option<
    (usize, MapKeySplit),
>)
    ensures
        ({
            let found = first_map_key_split(
                deep(pairs@),
                substitution@,
                value_variables(substitution@, Seq::empty(), 0),
                0,
            );
            match result {
                Some((index, split)) => index < pairs.len() && found == Some(
                    (index as int, split@),
                ),
                None => found is None,
            }
        }),
{
    let protected = substitution_value_variables(substitution);
    let mut i: usize = 0;
    while i < pairs.len()
        invariant
            i <= pairs.len(),
            deep(protected@) == value_variables(substitution@, Seq::empty(), 0),
            first_map_key_split(deep(pairs@), substitution@, deep(protected@), 0)
                == first_map_key_split(deep(pairs@), substitution@, deep(protected@), i as int),
        decreases pairs.len() - i,
    {
        assert(deep(pairs@)[i as int] == (pairs[i as int].0@, pairs[i as int].1@));
        let pattern = substitute(&pairs[i].0, substitution);
        let subject = substitute(&pairs[i].1, substitution);
        if let Some(split) = split_map_key_pair(&pattern, &subject, &protected) {
            return Some((i, split));
        }
        i += 1;
    }
    None
}

fn match_further<K: Kernel>(
    definition: &BackendDefinition<K>,
    pattern: &Term,
    subject: &Term,
    partial: &PartialRuleMatch,
) -> (result: Option<PartialRuleMatch>)
    ensures
        result.deep_view() == further_matched(definition, pattern@, subject@, partial@),
{
    let pattern = substitute(pattern, &partial.substitution);
    match match_terms_in_definition(MatchMode::Rewrite, definition, &pattern, subject) {
        MatchResult::Failed(_) => None,
        MatchResult::Success(found) => Some(
            PartialRuleMatch {
                substitution: compose(&found, &partial.substitution),
                conditions: partial.conditions.duplicate(),
                remainder: partial.remainder.duplicate(),
            },
        ),
        MatchResult::Indeterminate { substitution: found, remainder: open } => {
            let mut remainder = partial.remainder.duplicate();
            let mut open = open;
            remainder.append(&mut open);
            Some(
                PartialRuleMatch {
                    substitution: compose(&found, &partial.substitution),
                    conditions: partial.conditions.duplicate(),
                    remainder,
                },
            )
        },
    }
}

fn pair_keys<K: Kernel>(
    definition: &BackendDefinition<K>,
    entry: &(Term, Term),
    subject: &(Term, Term),
    partial: &PartialRuleMatch,
) -> (result: Option<PartialRuleMatch>)
    ensures
        result.deep_view() == key_paired(definition, entry.deep_view(), subject.deep_view(), partial@),
{
    proof {
        lemma_term_view(subject.0);
    }
    if !matches!(&subject.0, Term::Variable(_)) {
        return None;
    }
    let condition = Predicate::equality(
        subject.0.duplicate(),
        substitute(&entry.0, &partial.substitution),
    );
    let truth = predicate_truth(&condition);
    if matches!(truth, Truth::False) {
        return None;
    }
    match match_further(definition, &entry.1, &subject.1, partial) {
        None => None,
        Some(matched) => {
            let mut conditions = matched.conditions;
            if matches!(truth, Truth::Unknown) {
                add_unique(&mut conditions, condition);
            }
            Some(
                PartialRuleMatch {
                    substitution: matched.substitution,
                    conditions,
                    remainder: matched.remainder,
                },
            )
        },
    }
}

fn search_symbolic_map_key_matches<K: Kernel>(
    definition: &BackendDefinition<K>,
    split: &MapKeySplit,
    index: usize,
    remaining: &Vec<(Term, Term)>,
    partial: &PartialRuleMatch,
    matches: &mut Vec<PartialRuleMatch>,
)
    requires
        index <= split.entries.len(),
    ensures
        deep(final(matches)@) == keys_matched(
            definition,
            split@,
            index as int,
            deep(remaining@),
            partial@,
            deep(old(matches)@),
        ),
    decreases split.entries.len() - index,
{
    if index == split.entries.len() {
        let rest = Term::map(split.definition.duplicate(), remaining.duplicate(), None);
        if let Some(matched) = match_further(definition, &split.rest, &rest, partial) {
            matches.push(matched);
        }
        return ;
    }
    let ghost start = deep(matches@);
    let mut i: usize = 0;
    while i < remaining.len()
        invariant
            i <= remaining.len(),
            index < split.entries.len(),
            key_candidates(
                definition,
                split@,
                index as int,
                deep(remaining@),
                partial@,
                start,
                0,
            ) == key_candidates(
                definition,
                split@,
                index as int,
                deep(remaining@),
                partial@,
                deep(matches@),
                i as int,
            ),
        decreases remaining.len() - i,
    {
        assert(deep(remaining@)[i as int] == remaining[i as int].deep_view());
        assert(deep(split.entries@)[index as int] == split.entries[index as int].deep_view());
        if let Some(matched) = pair_keys(
            definition,
            &split.entries[index],
            &remaining[i],
            partial,
        ) {
            let others = without_pair(remaining, i);
            search_symbolic_map_key_matches(
                definition,
                split,
                index + 1,
                &others,
                &matched,
                matches,
            );
        }
        i += 1;
    }
}

/// Match a map of rigid keys with a closed map, one match for each choice of the entries with
/// variable keys, guarded by the equalities of the keys.
pub(crate) fn recover_symbolic_map_key_matches<K: Kernel>(
    definition: &BackendDefinition<K>,
    substitution: &Substitution,
    remainder: &Vec<(Term, Term)>,
) -> (result: Option<Vec<PartialRuleMatch>>)
    ensures
        result.deep_view() == map_key_matches(definition, substitution@, deep(remainder@)),
{
    match find_map_key_split(remainder, substitution) {
        None => None,
        Some((index, split)) => {
            let partial = PartialRuleMatch {
                substitution: substitution.duplicate(),
                conditions: Vec::new(),
                remainder: without_pair(remainder, index),
            };
            let mut matches: Vec<PartialRuleMatch> = Vec::new();
            search_symbolic_map_key_matches(
                definition,
                &split,
                0,
                &split.subject_entries,
                &partial,
                &mut matches,
            );
            Some(matches)
        },
    }
}

} // verus!
