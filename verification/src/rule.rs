//! Rewrite rules, equations, and the theories that hold them.

use vstd::prelude::*;
use crate::assoc::{
    assoc, assoc_bound, assoc_from, assoc_insert, assoc_push, assoc_pushed, key_position,
    key_position_from, law_bound, law_position, law_pushed, law_updated,
};
use crate::keys::lemma_text;
use crate::model::{deep, group_deep, Value};
use crate::ops::{push_text_key, text_key, Keyed};
use crate::predicate::{Predicate, PredicateV};
use crate::term::{lemma_term_view, Term, TermV, Variable, VariableV};

verus! {

broadcast use group_deep;

impl Value for u8 {
    fn duplicate(&self) -> (copy: Self) {
        *self
    }

    fn equals(&self, other: &Self) -> (same: bool) {
        *self == *other
    }
}

impl Keyed for u8 {
    open spec fn key(view: u8) -> Seq<u32> {
        seq![view as u32]
    }

    fn push_key(&self, output: &mut Vec<u32>) {
        output.push(*self as u32);
        assert(output@ =~= old(output)@ + Self::key(self.deep_view()));
    }

    proof fn lemma_decodes(left: u8, right: u8, left_rest: Seq<u32>, right_rest: Seq<u32>) {
        let all = Self::key(left) + left_rest;
        let other = Self::key(right) + right_rest;
        assert(all[0] == Self::key(left)[0]);
        assert(other[0] == Self::key(right)[0]);
        assert(left_rest =~= all.skip(1));
        assert(right_rest =~= other.skip(1));
    }
}

// ---------------------------------------------------------------------------------------------
// Attributes
// ---------------------------------------------------------------------------------------------
/// Whether a variable may be bound to a concrete or to a symbolic term only.
#[derive(Clone, Copy, Debug, PartialEq, Eq, Structural)]
pub enum ConstraintKind {
    Concrete,
    Symbolic,
}

impl DeepView for ConstraintKind {
    type V = ConstraintKind;

    open spec fn deep_view(&self) -> ConstraintKind {
        *self
    }
}

impl Value for ConstraintKind {
    fn duplicate(&self) -> (copy: Self) {
        *self
    }

    fn equals(&self, other: &Self) -> (same: bool) {
        *self == *other
    }
}

/// Which variables of a rule, given by name and sort, must be bound to concrete or symbolic terms.
#[derive(Debug, PartialEq, Eq)]
pub enum Concreteness {
    Unconstrained,
    All(ConstraintKind),
    Listed(Vec<((String, String), ConstraintKind)>),
}

/// The view of a [`Concreteness`].
pub enum ConcretenessV {
    Unconstrained,
    All(ConstraintKind),
    Listed(Seq<((Seq<char>, Seq<char>), ConstraintKind)>),
}

impl View for Concreteness {
    type V = ConcretenessV;

    open spec fn view(&self) -> ConcretenessV {
        match self {
            Concreteness::Unconstrained => ConcretenessV::Unconstrained,
            Concreteness::All(kind) => ConcretenessV::All(*kind),
            Concreteness::Listed(constrained) => ConcretenessV::Listed(deep(constrained@)),
        }
    }
}

impl DeepView for Concreteness {
    type V = ConcretenessV;

    open spec fn deep_view(&self) -> ConcretenessV {
        self@
    }
}

impl Value for Concreteness {
    fn duplicate(&self) -> (copy: Self) {
        match self {
            Concreteness::Unconstrained => Concreteness::Unconstrained,
            Concreteness::All(kind) => Concreteness::All(*kind),
            Concreteness::Listed(constrained) => Concreteness::Listed(constrained.duplicate()),
        }
    }

    fn equals(&self, other: &Self) -> (same: bool) {
        match (self, other) {
            (Concreteness::Unconstrained, Concreteness::Unconstrained) => true,
            (Concreteness::All(left), Concreteness::All(right)) => *left == *right,
            (Concreteness::Listed(left), Concreteness::Listed(right)) => left.equals(right),
            _ => false,
        }
    }
}

/// What the frontend says of a rule.
#[derive(Debug, PartialEq, Eq)]
pub struct RuleAttributes {
    pub priority: u8,
    pub label: Option<String>,
    pub unique_id: String,
    pub simplification: bool,
    pub preserves_definedness: bool,
    pub concreteness: Concreteness,
    pub smt_lemma: bool,
    pub executable: bool,
    pub source: Option<String>,
    pub location: Option<String>,
}

/// The view of [`RuleAttributes`].
pub struct RuleAttributesV {
    pub priority: u8,
    pub label: Option<Seq<char>>,
    pub unique_id: Seq<char>,
    pub simplification: bool,
    pub preserves_definedness: bool,
    pub concreteness: ConcretenessV,
    pub smt_lemma: bool,
    pub executable: bool,
    pub source: Option<Seq<char>>,
    pub location: Option<Seq<char>>,
}

impl View for RuleAttributes {
    type V = RuleAttributesV;

    open spec fn view(&self) -> RuleAttributesV {
        RuleAttributesV {
            priority: self.priority,
            label: self.label.deep_view(),
            unique_id: self.unique_id@,
            simplification: self.simplification,
            preserves_definedness: self.preserves_definedness,
            concreteness: self.concreteness@,
            smt_lemma: self.smt_lemma,
            executable: self.executable,
            source: self.source.deep_view(),
            location: self.location.deep_view(),
        }
    }
}

impl DeepView for RuleAttributes {
    type V = RuleAttributesV;

    open spec fn deep_view(&self) -> RuleAttributesV {
        self@
    }
}

impl Value for RuleAttributes {
    fn duplicate(&self) -> (copy: Self) {
        RuleAttributes {
            priority: self.priority,
            label: self.label.duplicate(),
            unique_id: self.unique_id.clone(),
            simplification: self.simplification,
            preserves_definedness: self.preserves_definedness,
            concreteness: self.concreteness.duplicate(),
            smt_lemma: self.smt_lemma,
            executable: self.executable,
            source: self.source.duplicate(),
            location: self.location.duplicate(),
        }
    }

    fn equals(&self, other: &Self) -> (same: bool) {
        self.priority == other.priority && self.label.equals(&other.label) && self.unique_id
            == other.unique_id && self.simplification == other.simplification
            && self.preserves_definedness == other.preserves_definedness
            && self.concreteness.equals(&other.concreteness) && self.smt_lemma == other.smt_lemma
            && self.executable == other.executable && self.source.equals(&other.source)
            && self.location.equals(&other.location)
    }
}

/// What is read off the terms of a rule.
#[derive(Debug, PartialEq, Eq)]
pub struct ComputedRuleAttributes {
    pub contains_ac_symbols: bool,
    pub undefined_symbols: Vec<String>,
}

/// The view of [`ComputedRuleAttributes`].
pub struct ComputedRuleAttributesV {
    pub contains_ac_symbols: bool,
    pub undefined_symbols: Seq<Seq<char>>,
}

impl View for ComputedRuleAttributes {
    type V = ComputedRuleAttributesV;

    open spec fn view(&self) -> ComputedRuleAttributesV {
        ComputedRuleAttributesV {
            contains_ac_symbols: self.contains_ac_symbols,
            undefined_symbols: deep(self.undefined_symbols@),
        }
    }
}

impl DeepView for ComputedRuleAttributes {
    type V = ComputedRuleAttributesV;

    open spec fn deep_view(&self) -> ComputedRuleAttributesV {
        self@
    }
}

impl Default for ComputedRuleAttributes {
    fn default() -> (result: Self)
        ensures
            result@ == (ComputedRuleAttributesV {
                contains_ac_symbols: false,
                undefined_symbols: Seq::empty(),
            }),
    {
        ComputedRuleAttributes { contains_ac_symbols: false, undefined_symbols: Vec::new() }
    }
}

impl Value for ComputedRuleAttributes {
    fn duplicate(&self) -> (copy: Self) {
        ComputedRuleAttributes {
            contains_ac_symbols: self.contains_ac_symbols,
            undefined_symbols: self.undefined_symbols.duplicate(),
        }
    }

    fn equals(&self, other: &Self) -> (same: bool) {
        self.contains_ac_symbols == other.contains_ac_symbols && self.undefined_symbols.equals(
            &other.undefined_symbols,
        )
    }
}

// ---------------------------------------------------------------------------------------------
// Rules
// ---------------------------------------------------------------------------------------------
/// One outcome of a rule with several: a term and what holds of it.
#[derive(Debug, PartialEq, Eq)]
pub struct RhsAlternative {
    pub term: Term,
    pub ensures: Vec<Predicate>,
}

/// The view of an [`RhsAlternative`].
pub struct RhsAlternativeV {
    pub term: TermV,
    pub ensures: Seq<PredicateV>,
}

impl View for RhsAlternative {
    type V = RhsAlternativeV;

    open spec fn view(&self) -> RhsAlternativeV {
        RhsAlternativeV { term: self.term@, ensures: deep(self.ensures@) }
    }
}

impl DeepView for RhsAlternative {
    type V = RhsAlternativeV;

    open spec fn deep_view(&self) -> RhsAlternativeV {
        self@
    }
}

impl Value for RhsAlternative {
    fn duplicate(&self) -> (copy: Self) {
        RhsAlternative { term: self.term.duplicate(), ensures: self.ensures.duplicate() }
    }

    fn equals(&self, other: &Self) -> (same: bool) {
        self.term.equals(&other.term) && self.ensures.equals(&other.ensures)
    }
}

/// The right-hand side of a rule.
#[derive(Debug, PartialEq, Eq)]
pub enum RuleRhs {
    Term(Term),
    Predicates(Vec<Predicate>),
    Top,
    Bottom,
    Disjunction(Vec<RhsAlternative>),
}

/// The view of a [`RuleRhs`].
pub enum RuleRhsV {
    Term(TermV),
    Predicates(Seq<PredicateV>),
    Top,
    Bottom,
    Disjunction(Seq<RhsAlternativeV>),
}

impl View for RuleRhs {
    type V = RuleRhsV;

    open spec fn view(&self) -> RuleRhsV {
        match self {
            RuleRhs::Term(term) => RuleRhsV::Term(term@),
            RuleRhs::Predicates(predicates) => RuleRhsV::Predicates(deep(predicates@)),
            RuleRhs::Top => RuleRhsV::Top,
            RuleRhs::Bottom => RuleRhsV::Bottom,
            RuleRhs::Disjunction(alternatives) => RuleRhsV::Disjunction(deep(alternatives@)),
        }
    }
}

impl DeepView for RuleRhs {
    type V = RuleRhsV;

    open spec fn deep_view(&self) -> RuleRhsV {
        self@
    }
}

impl Value for RuleRhs {
    fn duplicate(&self) -> (copy: Self) {
        match self {
            RuleRhs::Term(term) => RuleRhs::Term(term.duplicate()),
            RuleRhs::Predicates(predicates) => RuleRhs::Predicates(predicates.duplicate()),
            RuleRhs::Top => RuleRhs::Top,
            RuleRhs::Bottom => RuleRhs::Bottom,
            RuleRhs::Disjunction(alternatives) => RuleRhs::Disjunction(alternatives.duplicate()),
        }
    }

    fn equals(&self, other: &Self) -> (same: bool) {
        match (self, other) {
            (RuleRhs::Term(left), RuleRhs::Term(right)) => left.equals(right),
            (RuleRhs::Predicates(left), RuleRhs::Predicates(right)) => left.equals(right),
            (RuleRhs::Top, RuleRhs::Top) => true,
            (RuleRhs::Bottom, RuleRhs::Bottom) => true,
            (RuleRhs::Disjunction(left), RuleRhs::Disjunction(right)) => left.equals(right),
            _ => false,
        }
    }
}

/// A rule that rewrites `lhs` to `rhs` where `requires` holds.
#[derive(Debug, PartialEq, Eq)]
pub struct RewriteRule {
    pub lhs: Term,
    pub rhs: RuleRhs,
    pub requires: Vec<Predicate>,
    pub ensures: Vec<Predicate>,
    pub attributes: RuleAttributes,
    pub computed_attributes: ComputedRuleAttributes,
    pub existentials: Vec<Variable>,
}

/// The view of a [`RewriteRule`].
pub struct RewriteRuleV {
    pub lhs: TermV,
    pub rhs: RuleRhsV,
    pub requires: Seq<PredicateV>,
    pub ensures: Seq<PredicateV>,
    pub attributes: RuleAttributesV,
    pub computed_attributes: ComputedRuleAttributesV,
    pub existentials: Seq<VariableV>,
}

impl View for RewriteRule {
    type V = RewriteRuleV;

    open spec fn view(&self) -> RewriteRuleV {
        RewriteRuleV {
            lhs: self.lhs@,
            rhs: self.rhs@,
            requires: deep(self.requires@),
            ensures: deep(self.ensures@),
            attributes: self.attributes@,
            computed_attributes: self.computed_attributes@,
            existentials: deep(self.existentials@),
        }
    }
}

impl DeepView for RewriteRule {
    type V = RewriteRuleV;

    open spec fn deep_view(&self) -> RewriteRuleV {
        self@
    }
}

impl Value for RewriteRule {
    fn duplicate(&self) -> (copy: Self) {
        RewriteRule {
            lhs: self.lhs.duplicate(),
            rhs: self.rhs.duplicate(),
            requires: self.requires.duplicate(),
            ensures: self.ensures.duplicate(),
            attributes: self.attributes.duplicate(),
            computed_attributes: self.computed_attributes.duplicate(),
            existentials: self.existentials.duplicate(),
        }
    }

    fn equals(&self, other: &Self) -> (same: bool) {
        self.lhs.equals(&other.lhs) && self.rhs.equals(&other.rhs) && self.requires.equals(
            &other.requires,
        ) && self.ensures.equals(&other.ensures) && self.attributes.equals(&other.attributes)
            && self.computed_attributes.equals(&other.computed_attributes)
            && self.existentials.equals(&other.existentials)
    }
}

/// An equation between predicates: `lhs` may be replaced by the conjunction `rhs` where
/// `requires` holds.
#[derive(Debug, PartialEq, Eq)]
pub struct PredicateRewriteRule {
    pub lhs: Predicate,
    pub rhs: Vec<Predicate>,
    pub requires: Vec<Predicate>,
    pub attributes: RuleAttributes,
}

/// The view of a [`PredicateRewriteRule`].
pub struct PredicateRewriteRuleV {
    pub lhs: PredicateV,
    pub rhs: Seq<PredicateV>,
    pub requires: Seq<PredicateV>,
    pub attributes: RuleAttributesV,
}

impl View for PredicateRewriteRule {
    type V = PredicateRewriteRuleV;

    open spec fn view(&self) -> PredicateRewriteRuleV {
        PredicateRewriteRuleV {
            lhs: self.lhs@,
            rhs: deep(self.rhs@),
            requires: deep(self.requires@),
            attributes: self.attributes@,
        }
    }
}

impl DeepView for PredicateRewriteRule {
    type V = PredicateRewriteRuleV;

    open spec fn deep_view(&self) -> PredicateRewriteRuleV {
        self@
    }
}

/// What kind of rule an axiom becomes.
#[derive(Clone, Copy, Debug, PartialEq, Eq, Structural)]
pub enum RuleKind {
    Rewrite,
    Function,
    Simplification,
    Ceil,
}

// ---------------------------------------------------------------------------------------------
// Theories
// ---------------------------------------------------------------------------------------------
/// The head of a term, by which rules are found.
#[derive(Debug, PartialEq, Eq)]
pub enum TermIndex {
    Symbol(String),
    Injection,
    KMap,
    KList,
    KSet,
    DomainValue,
    Variable,
    And,
}

/// The view of a [`TermIndex`].
pub enum TermIndexV {
    Symbol(Seq<char>),
    Injection,
    KMap,
    KList,
    KSet,
    DomainValue,
    Variable,
    And,
}

impl View for TermIndex {
    type V = TermIndexV;

    open spec fn view(&self) -> TermIndexV {
        match self {
            TermIndex::Symbol(name) => TermIndexV::Symbol(name@),
            TermIndex::Injection => TermIndexV::Injection,
            TermIndex::KMap => TermIndexV::KMap,
            TermIndex::KList => TermIndexV::KList,
            TermIndex::KSet => TermIndexV::KSet,
            TermIndex::DomainValue => TermIndexV::DomainValue,
            TermIndex::Variable => TermIndexV::Variable,
            TermIndex::And => TermIndexV::And,
        }
    }
}

impl DeepView for TermIndex {
    type V = TermIndexV;

    open spec fn deep_view(&self) -> TermIndexV {
        self@
    }
}

impl Value for TermIndex {
    fn duplicate(&self) -> (copy: Self) {
        match self {
            TermIndex::Symbol(name) => TermIndex::Symbol(name.clone()),
            TermIndex::Injection => TermIndex::Injection,
            TermIndex::KMap => TermIndex::KMap,
            TermIndex::KList => TermIndex::KList,
            TermIndex::KSet => TermIndex::KSet,
            TermIndex::DomainValue => TermIndex::DomainValue,
            TermIndex::Variable => TermIndex::Variable,
            TermIndex::And => TermIndex::And,
        }
    }

    fn equals(&self, other: &Self) -> (same: bool) {
        match (self, other) {
            (TermIndex::Symbol(left), TermIndex::Symbol(right)) => *left == *right,
            (TermIndex::Injection, TermIndex::Injection) => true,
            (TermIndex::KMap, TermIndex::KMap) => true,
            (TermIndex::KList, TermIndex::KList) => true,
            (TermIndex::KSet, TermIndex::KSet) => true,
            (TermIndex::DomainValue, TermIndex::DomainValue) => true,
            (TermIndex::Variable, TermIndex::Variable) => true,
            (TermIndex::And, TermIndex::And) => true,
            _ => false,
        }
    }
}

impl Keyed for TermIndex {
    open spec fn key(view: TermIndexV) -> Seq<u32> {
        match view {
            TermIndexV::Symbol(name) => seq![1u32] + text_key(name),
            TermIndexV::Injection => seq![2u32],
            TermIndexV::KMap => seq![3u32],
            TermIndexV::KList => seq![4u32],
            TermIndexV::KSet => seq![5u32],
            TermIndexV::DomainValue => seq![6u32],
            TermIndexV::Variable => seq![7u32],
            TermIndexV::And => seq![8u32],
        }
    }

    fn push_key(&self, output: &mut Vec<u32>) {
        match self {
            TermIndex::Symbol(name) => {
                output.push(1);
                push_text_key(name, output);
            },
            TermIndex::Injection => output.push(2),
            TermIndex::KMap => output.push(3),
            TermIndex::KList => output.push(4),
            TermIndex::KSet => output.push(5),
            TermIndex::DomainValue => output.push(6),
            TermIndex::Variable => output.push(7),
            TermIndex::And => output.push(8),
        }
        assert(output@ =~= old(output)@ + Self::key(self.deep_view()));
    }

    proof fn lemma_decodes(
        left: TermIndexV,
        right: TermIndexV,
        left_rest: Seq<u32>,
        right_rest: Seq<u32>,
    ) {
        let all = Self::key(left) + left_rest;
        let other = Self::key(right) + right_rest;
        assert(all[0] == Self::key(left)[0]);
        assert(other[0] == Self::key(right)[0]);
        match (left, right) {
            (TermIndexV::Symbol(name), TermIndexV::Symbol(other_name)) => {
                assert(all.skip(1) =~= text_key(name) + left_rest);
                assert(other.skip(1) =~= text_key(other_name) + right_rest);
                lemma_text(name, other_name, left_rest, right_rest);
            },
            _ => {
                assert(left_rest =~= all.skip(1));
                assert(right_rest =~= other.skip(1));
            },
        }
    }
}

/// The index of a term.
pub open spec fn index_of(term: TermV) -> TermIndexV {
    match term {
        TermV::Application { symbol, .. } => TermIndexV::Symbol(symbol.name),
        TermV::Injection { .. } => TermIndexV::Injection,
        TermV::KMap { .. } => TermIndexV::KMap,
        TermV::KList { .. } => TermIndexV::KList,
        TermV::KSet { .. } => TermIndexV::KSet,
        TermV::DomainValue { .. } => TermIndexV::DomainValue,
        TermV::Variable(_) => TermIndexV::Variable,
        TermV::And(_, _) => TermIndexV::And,
    }
}

/// The index of a left-hand side.
pub fn term_index(term: &Term) -> (index: TermIndex)
    ensures
        index@ == index_of(term@),
{
    proof {
        lemma_term_view(*term);
    }
    match term {
        Term::Application { symbol, .. } => TermIndex::Symbol(symbol.name.clone()),
        Term::Injection { .. } => TermIndex::Injection,
        Term::KMap { .. } => TermIndex::KMap,
        Term::KList { .. } => TermIndex::KList,
        Term::KSet { .. } => TermIndex::KSet,
        Term::DomainValue { .. } => TermIndex::DomainValue,
        Term::Variable(_) => TermIndex::Variable,
        Term::And(_, _) => TermIndex::And,
    }
}

/// Rules grouped by priority: ascending priorities, each with its rules in insertion order.
pub type GroupsV = Seq<(u8, Seq<RewriteRuleV>)>;

/// Rules grouped by the index of their left-hand side, then by priority.
#[derive(Debug, PartialEq, Eq)]
pub struct Theory {
    pub entries: Vec<(TermIndex, Vec<(u8, Vec<RewriteRule>)>)>,
}

/// The view of a [`Theory`].
pub type TheoryV = Seq<(TermIndexV, GroupsV)>;

impl View for Theory {
    type V = TheoryV;

    open spec fn view(&self) -> TheoryV {
        deep(self.entries@)
    }
}

impl Theory {
    /// A theory without rules.
    pub fn new() -> (theory: Self)
        ensures
            theory@ == TheoryV::empty(),
    {
        Theory { entries: Vec::new() }
    }
}

/// `theory` with `rule` behind the rules of the same index and priority.
pub open spec fn theory_with(theory: TheoryV, rule: RewriteRuleV) -> TheoryV {
    let index = index_of(rule.lhs);
    match key_position_from(theory, index, 0) {
        Some(i) => theory.update(
            i,
            (
                index,
                assoc_pushed::<u8, RewriteRuleV>(theory[i].1, rule.attributes.priority, rule),
            ),
        ),
        None => assoc_bound::<TermIndex, GroupsV>(
            theory,
            index,
            seq![(rule.attributes.priority, seq![rule])],
        ),
    }
}

/// Add `rule` to `theory`.
pub fn insert_theory(theory: &mut Theory, rule: RewriteRule)
    ensures
        final(theory)@ == theory_with(old(theory)@, rule@),
{
    let index = term_index(&rule.lhs);
    let priority: u8 = rule.attributes.priority;
    match key_position(&theory.entries, &index) {
        Some(i) => {
            assert(theory@[i as int] == (
                theory.entries[i as int].0@,
                deep(theory.entries[i as int].1@),
            ));
            let (own, mut groups) = theory.entries.remove(i);
            assoc_push(&mut groups, priority, rule);
            theory.entries.insert(i, (own, groups));
            assert(theory@ =~= theory_with(old(theory)@, rule@));
        },
        None => {
            let mut rules: Vec<RewriteRule> = Vec::new();
            rules.push(rule);
            assert(deep(rules@) =~= seq![rule@]);
            let mut groups: Vec<(u8, Vec<RewriteRule>)> = Vec::new();
            groups.push((priority, rules));
            assert(deep(groups@) =~= seq![(priority, seq![rule@])]);
            assoc_insert(&mut theory.entries, index, groups);
        },
    }
}

/// The rules of the given index and priority, in insertion order.
pub open spec fn rules_at(theory: TheoryV, index: TermIndexV, priority: u8) -> Seq<RewriteRuleV> {
    match assoc(theory, index) {
        Some(groups) => match assoc(groups, priority) {
            Some(rules) => rules,
            None => Seq::empty(),
        },
        None => Seq::empty(),
    }
}

/// To add a rule to a theory puts it behind the rules of its index and priority, and leaves all
/// other rules as they are.
pub proof fn law_inserted_rule(
    theory: TheoryV,
    rule: RewriteRuleV,
    index: TermIndexV,
    priority: u8,
)
    ensures
        rules_at(theory_with(theory, rule), index, priority) == (if index == index_of(rule.lhs)
            && priority == rule.attributes.priority {
            rules_at(theory, index, priority).push(rule)
        } else {
            rules_at(theory, index, priority)
        }),
{
    let own = index_of(rule.lhs);
    let at = rule.attributes.priority;
    law_position(theory, own);
    match key_position_from(theory, own, 0) {
        Some(i) => {
            let groups = assoc_pushed::<u8, RewriteRuleV>(theory[i].1, at, rule);
            law_updated(theory, own, groups, index);
            law_pushed::<u8, RewriteRuleV>(theory[i].1, at, rule, priority);
            assert(Seq::<RewriteRuleV>::empty().push(rule) =~= seq![rule]);
        },
        None => {
            let groups = seq![(at, seq![rule])];
            law_bound::<TermIndex, GroupsV>(theory, own, groups, index);
            assert(Seq::<RewriteRuleV>::empty().push(rule) =~= seq![rule]);
            assert(assoc(groups, priority) == (if priority == at {
                Some(seq![rule])
            } else {
                None
            })) by {
                assert(assoc_from(groups, priority, 1) is None);
            }
        },
    }
}

} // verus!
