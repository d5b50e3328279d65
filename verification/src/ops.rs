//! Structure shared by every operation on terms: children, keys, order, sorts and constructors.

use vstd::prelude::*;
use crate::keys::{collection_key, lemma_items, lemma_term, lemma_text, lemma_variable, symbol_key};
use crate::model::{deep, group_deep, Value};
use crate::term::{
    lemma_sort_view, lemma_term_view, rest_view, Sort, SortV, Term, TermV, Variable, VariableKind,
    VariableV,
};

verus! {

broadcast use {group_deep, lemma_sort_view, lemma_term_view};

// ---------------------------------------------------------------------------------------------
// Children
// ---------------------------------------------------------------------------------------------
/// The opaque rest as a sequence of at most one term.
pub open spec fn rest_seq(rest: Option<Box<TermV>>) -> Seq<TermV> {
    match rest {
        Some(rest) => seq![*rest],
        None => Seq::empty(),
    }
}

/// The keys and values of `entries`, alternating.
pub open spec fn flat_entries(entries: Seq<(TermV, TermV)>) -> Seq<TermV> {
    Seq::new(
        2 * entries.len(),
        |i: int|
            if i % 2 == 0 {
                entries[i / 2].0
            } else {
                entries[i / 2].1
            },
    )
}

/// The immediate subterms, from left to right.
#[verifier::opaque]
pub open spec fn children(term: TermV) -> Seq<TermV> {
    match term {
        TermV::And(left, right) => seq![*left, *right],
        TermV::Application { arguments, .. } => arguments,
        TermV::DomainValue { .. } => Seq::empty(),
        TermV::Variable(_) => Seq::empty(),
        TermV::Injection { term, .. } => seq![*term],
        TermV::KMap { entries, rest, .. } => flat_entries(entries) + rest_seq(rest),
        TermV::KList { heads, rest, tails, .. } => heads + rest_seq(rest) + tails,
        TermV::KSet { elements, rest, .. } => elements + rest_seq(rest),
    }
}

pub broadcast proof fn lemma_child_smaller(term: TermV, i: int)
    requires
        0 <= i < children(term).len(),
    ensures
        decreases_to!(term => #[trigger] children(term)[i]),
{
    reveal(children);
    match term {
        TermV::And(left, right) => {},
        TermV::Application { arguments, .. } => {
            assert(decreases_to!(term->Application_arguments => term->Application_arguments[i]));
        },
        TermV::KMap { entries, rest, .. } => {
            if i < 2 * entries.len() {
                assert(decreases_to!(term->KMap_entries => term->KMap_entries[i / 2]));
                assert(decreases_to!(term->KMap_entries[i / 2] => term->KMap_entries[i / 2].0));
                assert(decreases_to!(term->KMap_entries[i / 2] => term->KMap_entries[i / 2].1));
            } else {
                assert(decreases_to!(term->KMap_rest => term->KMap_rest->0));
            }
        },
        TermV::KList { heads, rest, tails, .. } => {
            if i < heads.len() {
                assert(decreases_to!(term->KList_heads => term->KList_heads[i]));
            } else if i < heads.len() + rest_seq(rest).len() {
                assert(decreases_to!(term->KList_rest => term->KList_rest->0));
            } else {
                let j = i - heads.len() - rest_seq(rest).len();
                assert(decreases_to!(term->KList_tails => term->KList_tails[j]));
            }
        },
        TermV::KSet { elements, rest, .. } => {
            if i < elements.len() {
                assert(decreases_to!(term->KSet_elements => term->KSet_elements[i]));
            } else {
                assert(decreases_to!(term->KSet_rest => term->KSet_rest->0));
            }
        },
        _ => {},
    }
}

fn push_all<'a>(terms: &'a Vec<Term>, output: &mut Vec<&'a Term>)
    ensures
        deep(final(output)@) == deep(old(output)@) + deep(terms@),
{
    let ghost before = deep(output@);
    let mut i: usize = 0;
    while i < terms.len()
        invariant
            i <= terms.len(),
            deep(output@) == before + deep(terms@).take(i as int),
        decreases terms.len() - i,
    {
        output.push(&terms[i]);
        proof {
            assert(deep(terms@).take(i + 1) =~= deep(terms@).take(i as int).push(terms[i as int]@));
            assert(deep(output@) =~= before + deep(terms@).take(i + 1));
        }
        i += 1;
    }
    assert(deep(terms@).take(i as int) =~= deep(terms@));
}

fn push_rest<'a>(rest: &'a Option<Box<Term>>, output: &mut Vec<&'a Term>)
    ensures
        deep(final(output)@) == deep(old(output)@) + rest_seq(rest_view(*rest)),
{
    match rest {
        Some(rest) => {
            let rest: &Term = rest;
            output.push(rest);
            assert(deep(output@) =~= deep(old(output)@) + seq![rest@]);
        },
        None => {
            assert(deep(output@) =~= deep(old(output)@) + Seq::<TermV>::empty());
        },
    }
}

fn push_entries<'a>(entries: &'a Vec<(Term, Term)>, output: &mut Vec<&'a Term>)
    ensures
        deep(final(output)@) == deep(old(output)@) + flat_entries(deep(entries@)),
{
    let ghost before = deep(output@);
    let ghost flat = flat_entries(deep(entries@));
    let mut i: usize = 0;
    assert(deep(output@) =~= before + flat.take(0));
    while i < entries.len()
        invariant
            i <= entries.len(),
            flat == flat_entries(deep(entries@)),
            deep(output@) == before + flat.take(2 * i),
        decreases entries.len() - i,
    {
        output.push(&entries[i].0);
        output.push(&entries[i].1);
        proof {
            assert(flat[2 * i] == entries[i as int].0@);
            assert(flat[2 * i + 1] == entries[i as int].1@);
            assert(deep(output@) =~= before + flat.take(2 * (i + 1)));
        }
        i += 1;
    }
    assert(flat.take(2 * i) =~= flat);
}

impl Term {
    /// The immediate subterms, from left to right.
    pub fn children(&self) -> (result: Vec<&Term>)
        ensures
            deep(result@) == children(self@),
    {
        reveal(children);
        let mut result: Vec<&Term> = Vec::new();
        match self {
            Term::And(left, right) => {
                let left: &Term = left;
                let right: &Term = right;
                result.push(left);
                result.push(right);
                assert(deep(result@) =~= children(self@));
            },
            Term::Application { arguments, .. } => {
                push_all(arguments, &mut result);
                assert(deep(result@) =~= children(self@));
            },
            Term::DomainValue { .. } | Term::Variable(_) => {},
            Term::Injection { term, .. } => {
                let term: &Term = term;
                result.push(term);
                assert(deep(result@) =~= children(self@));
            },
            Term::KMap { entries, rest, .. } => {
                push_entries(entries, &mut result);
                push_rest(rest, &mut result);
                assert(deep(result@) =~= children(self@));
            },
            Term::KList { heads, rest, tails, .. } => {
                push_all(heads, &mut result);
                push_rest(rest, &mut result);
                push_all(tails, &mut result);
                assert(deep(result@) =~= children(self@));
            },
            Term::KSet { elements, rest, .. } => {
                push_all(elements, &mut result);
                push_rest(rest, &mut result);
                assert(deep(result@) =~= children(self@));
            },
        }
        result
    }
}

// ---------------------------------------------------------------------------------------------
// Keys and the order on terms
// ---------------------------------------------------------------------------------------------
/// Lexicographic order on the parts of two keys from `from` on.
pub open spec fn key_precedes_from(left: Seq<u32>, right: Seq<u32>, from: int) -> bool
    decreases left.len() - from,
{
    if from >= left.len() {
        from < right.len()
    } else if from >= right.len() {
        false
    } else if left[from] == right[from] {
        key_precedes_from(left, right, from + 1)
    } else {
        left[from] < right[from]
    }
}

/// Lexicographic order on keys.
pub open spec fn key_precedes(left: Seq<u32>, right: Seq<u32>) -> bool {
    key_precedes_from(left, right, 0)
}

/// Whether one key comes before another.
pub fn key_is_before(left: &Vec<u32>, right: &Vec<u32>) -> (result: bool)
    ensures
        result == key_precedes(left@, right@),
{
    let mut i: usize = 0;
    while i < left.len() && i < right.len()
        invariant
            i <= left.len(),
            i <= right.len(),
            key_precedes(left@, right@) == key_precedes_from(left@, right@, i as int),
        decreases left.len() - i,
    {
        if left[i] != right[i] {
            return left[i] < right[i];
        }
        i += 1;
    }
    i < right.len()
}

/// The key of the characters of `text` from `from` on, closed by a zero.
pub open spec fn text_key_from(text: Seq<char>, from: int) -> Seq<u32>
    decreases text.len() - from,
{
    if from >= text.len() {
        seq![0u32]
    } else {
        seq![(text[from] as u32 + 1) as u32] + text_key_from(text, from + 1)
    }
}

/// The key of a string: keys are ordered as the strings are.
pub open spec fn text_key(text: Seq<char>) -> Seq<u32> {
    text_key_from(text, 0)
}

/// Append the key of a text.
pub fn push_text_key(text: &String, output: &mut Vec<u32>)
    ensures
        final(output)@ == old(output)@ + text_key(text@),
{
    let length: usize = text.as_str().unicode_len();
    let mut i: usize = 0;
    while i < length
        invariant
            i <= length,
            length == text@.len(),
            output@ + text_key_from(text@, i as int) == old(output)@ + text_key(text@),
        decreases length - i,
    {
        let c: char = text.as_str().get_char(i);
        let ghost before = output@;
        output.push(c as u32 + 1);
        assert(output@ + text_key_from(text@, i + 1) =~= before + text_key_from(text@, i as int));
        i += 1;
    }
    output.push(0);
    assert(output@ =~= old(output)@ + text_key(text@));
}

/// The key of a sort.
pub open spec fn sort_key(sort: SortV) -> Seq<u32>
    decreases sort, 0int,
{
    match sort {
        SortV::Variable(name) => seq![1u32] + text_key(name),
        SortV::Application { name, arguments } => seq![2u32] + text_key(name) + sort_keys(
            arguments,
            0,
        ),
    }
}

/// The keys of the sorts from `from` on, closed by a zero.
pub open spec fn sort_keys(sorts: Seq<SortV>, from: int) -> Seq<u32>
    decreases sorts, sorts.len() - from,
{
    if 0 <= from < sorts.len() {
        sort_key(sorts[from]) + sort_keys(sorts, from + 1)
    } else {
        seq![0u32]
    }
}

/// Append the key of a sort.
pub fn push_sort_key(sort: &Sort, output: &mut Vec<u32>)
    ensures
        final(output)@ == old(output)@ + sort_key(sort@),
    decreases sort@, 0int,
{
    match sort {
        Sort::Variable(name) => {
            output.push(1);
            push_text_key(name, output);
            assert(output@ =~= old(output)@ + sort_key(sort@));
        },
        Sort::Application { name, arguments } => {
            output.push(2);
            push_text_key(name, output);
            assert(decreases_to!(sort@ => sort@->arguments));
            push_sort_keys(arguments, output);
            assert(output@ =~= old(output)@ + sort_key(sort@));
        },
    }
}

/// Append the keys of sorts.
pub fn push_sort_keys(sorts: &Vec<Sort>, output: &mut Vec<u32>)
    ensures
        final(output)@ == old(output)@ + sort_keys(deep(sorts@), 0),
    decreases deep(sorts@), sorts@.len(),
{
    let mut i: usize = 0;
    while i < sorts.len()
        invariant
            i <= sorts.len(),
            output@ + sort_keys(deep(sorts@), i as int) == old(output)@ + sort_keys(
                deep(sorts@),
                0,
            ),
        decreases sorts.len() - i,
    {
        let ghost before = output@;
        assert(deep(sorts@)[i as int] == sorts[i as int]@);
        push_sort_key(&sorts[i], output);
        assert(output@ + sort_keys(deep(sorts@), i + 1) =~= before + sort_keys(
            deep(sorts@),
            i as int,
        ));
        i += 1;
    }
    output.push(0);
    assert(output@ =~= old(output)@ + sort_keys(deep(sorts@), 0));
}

/// The key of a variable: its name, then its sort, then its kind.
pub open spec fn variable_key(variable: VariableV) -> Seq<u32> {
    text_key(variable.name) + sort_key(variable.sort) + (match variable.kind {
        VariableKind::Element => seq![1u32],
        VariableKind::SetVariable => seq![2u32],
    })
}

/// Append the key of a variable.
pub fn push_variable_key(variable: &Variable, output: &mut Vec<u32>)
    ensures
        final(output)@ == old(output)@ + variable_key(variable@),
{
    push_text_key(&variable.name, output);
    push_sort_key(&variable.sort, output);
    match variable.kind {
        VariableKind::Element => output.push(1),
        VariableKind::SetVariable => output.push(2),
    }
    assert(output@ =~= old(output)@ + variable_key(variable@));
}

/// A count as part of a key: as many ones, closed by a zero.
pub open spec fn ones(count: nat) -> Seq<u32>
    decreases count,
{
    if count == 0 {
        seq![0u32]
    } else {
        seq![1u32] + ones((count - 1) as nat)
    }
}

fn push_ones(count: usize, output: &mut Vec<u32>)
    ensures
        final(output)@ == old(output)@ + ones(count as nat),
{
    let mut left: usize = count;
    while left > 0
        invariant
            output@ + ones(left as nat) == old(output)@ + ones(count as nat),
        decreases left,
    {
        let ghost before = output@;
        output.push(1);
        left -= 1;
        assert(output@ + ones(left as nat) =~= before + ones((left + 1) as nat));
    }
    output.push(0);
    assert(output@ =~= old(output)@ + ones(count as nat));
}

/// Whether the rest of a collection is present, as part of a key.
pub open spec fn rest_key(rest: Option<Box<TermV>>) -> Seq<u32> {
    match rest {
        Some(_) => seq![2u32],
        None => seq![1u32],
    }
}

/// The key of everything in a term but its children.
pub open spec fn head_key(term: TermV) -> Seq<u32> {
    match term {
        TermV::And(_, _) => seq![1u32],
        TermV::Application { symbol, sort_arguments, .. } => seq![2u32] + symbol_key(symbol)
            + sort_keys(sort_arguments, 0),
        TermV::DomainValue { sort, value } => seq![3u32] + sort_key(sort) + text_key(value),
        TermV::Variable(variable) => seq![4u32] + variable_key(variable),
        TermV::Injection { source, target, .. } => seq![5u32] + sort_key(source) + sort_key(target),
        TermV::KMap { definition, rest, .. } => seq![6u32] + collection_key(definition) + rest_key(
            rest,
        ),
        TermV::KList { definition, heads, rest, .. } => seq![7u32] + collection_key(definition)
            + rest_key(rest) + ones(heads.len()),
        TermV::KSet { definition, rest, .. } => seq![8u32] + collection_key(definition) + rest_key(
            rest,
        ),
    }
}

/// The key of a term: its head, then its children.
pub open spec fn term_key(term: TermV) -> Seq<u32>
    decreases term, 1int, 0int,
{
    head_key(term) + child_keys(term, 0)
}

/// The keys of the children from `from` on, closed by a zero.
pub open spec fn child_keys(term: TermV, from: int) -> Seq<u32>
    decreases term, 0int, children(term).len() - from,
{
    if 0 <= from < children(term).len() {
        proof {
            lemma_child_smaller(term, from);
        }
        term_key(children(term)[from]) + child_keys(term, from + 1)
    } else {
        seq![0u32]
    }
}

fn push_rest_key(rest: &Option<Box<Term>>, output: &mut Vec<u32>)
    ensures
        final(output)@ == old(output)@ + rest_key(rest_view(*rest)),
{
    match rest {
        Some(_) => output.push(2),
        None => output.push(1),
    }
    assert(output@ =~= old(output)@ + rest_key(rest_view(*rest)));
}

fn push_head_key(term: &Term, output: &mut Vec<u32>)
    ensures
        final(output)@ == old(output)@ + head_key(term@),
{
    match term {
        Term::And(_, _) => {
            output.push(1);
            assert(output@ =~= old(output)@ + head_key(term@));
        },
        Term::Application { symbol, sort_arguments, .. } => {
            output.push(2);
            symbol.push_key(output);
            push_sort_keys(sort_arguments, output);
            assert(output@ =~= old(output)@ + head_key(term@));
        },
        Term::DomainValue { sort, value } => {
            output.push(3);
            push_sort_key(sort, output);
            push_text_key(value, output);
            assert(output@ =~= old(output)@ + head_key(term@));
        },
        Term::Variable(variable) => {
            output.push(4);
            push_variable_key(variable, output);
            assert(output@ =~= old(output)@ + head_key(term@));
        },
        Term::Injection { source, target, .. } => {
            output.push(5);
            push_sort_key(source, output);
            push_sort_key(target, output);
            assert(output@ =~= old(output)@ + head_key(term@));
        },
        Term::KMap { definition, rest, .. } => {
            output.push(6);
            definition.push_key(output);
            push_rest_key(rest, output);
            assert(output@ =~= old(output)@ + head_key(term@));
        },
        Term::KList { definition, heads, rest, .. } => {
            output.push(7);
            definition.push_key(output);
            push_rest_key(rest, output);
            push_ones(heads.len(), output);
            assert(output@ =~= old(output)@ + head_key(term@));
        },
        Term::KSet { definition, rest, .. } => {
            output.push(8);
            definition.push_key(output);
            push_rest_key(rest, output);
            assert(output@ =~= old(output)@ + head_key(term@));
        },
    }
}

/// Append the key of a term.
pub fn push_term_key(term: &Term, output: &mut Vec<u32>)
    ensures
        final(output)@ == old(output)@ + term_key(term@),
    decreases term@,
{
    push_head_key(term, output);
    let kids: Vec<&Term> = term.children();
    let mut i: usize = 0;
    assert(old(output)@ + term_key(term@) =~= output@ + child_keys(term@, 0));
    while i < kids.len()
        invariant
            i <= kids.len(),
            deep(kids@) == children(term@),
            output@ + child_keys(term@, i as int) == old(output)@ + term_key(term@),
        decreases kids.len() - i,
    {
        let ghost before = output@;
        proof {
            assert(children(term@)[i as int] == kids[i as int]@);
            lemma_child_smaller(term@, i as int);
        }
        push_term_key(kids[i], output);
        assert(output@ + child_keys(term@, i + 1) =~= before + child_keys(term@, i as int));
        i += 1;
    }
    output.push(0);
    assert(output@ =~= old(output)@ + term_key(term@));
}

// ---------------------------------------------------------------------------------------------
// Sorted sequences
// ---------------------------------------------------------------------------------------------
/// Values that are ordered by a key.
pub trait Keyed: Value {
    spec fn key(view: Self::V) -> Seq<u32>;

    fn push_key(&self, output: &mut Vec<u32>)
        ensures
            final(output)@ == old(output)@ + Self::key(self.deep_view()),
    ;

    /// A key tells where it ends, and the value that it is of.
    proof fn lemma_decodes(
        left: Self::V,
        right: Self::V,
        left_rest: Seq<u32>,
        right_rest: Seq<u32>,
    )
        requires
            Self::key(left) + left_rest == Self::key(right) + right_rest,
        ensures
            left == right,
            left_rest == right_rest,
    ;
}

impl Keyed for String {
    open spec fn key(view: Seq<char>) -> Seq<u32> {
        text_key(view)
    }

    fn push_key(&self, output: &mut Vec<u32>) {
        push_text_key(self, output);
    }

    proof fn lemma_decodes(
        left: Seq<char>,
        right: Seq<char>,
        left_rest: Seq<u32>,
        right_rest: Seq<u32>,
    ) {
        lemma_text(left, right, left_rest, right_rest);
    }
}

impl Keyed for Variable {
    open spec fn key(view: VariableV) -> Seq<u32> {
        variable_key(view)
    }

    fn push_key(&self, output: &mut Vec<u32>) {
        push_variable_key(self, output);
    }

    proof fn lemma_decodes(
        left: VariableV,
        right: VariableV,
        left_rest: Seq<u32>,
        right_rest: Seq<u32>,
    ) {
        lemma_variable(left, right, left_rest, right_rest);
    }
}

impl Keyed for Term {
    open spec fn key(view: TermV) -> Seq<u32> {
        term_key(view)
    }

    fn push_key(&self, output: &mut Vec<u32>) {
        push_term_key(self, output);
    }

    proof fn lemma_decodes(
        left: TermV,
        right: TermV,
        left_rest: Seq<u32>,
        right_rest: Seq<u32>,
    ) {
        lemma_term(left, right, left_rest, right_rest);
    }
}

impl<A: Keyed, B: Keyed> Keyed for (A, B) {
    open spec fn key(view: (A::V, B::V)) -> Seq<u32> {
        A::key(view.0) + B::key(view.1)
    }

    fn push_key(&self, output: &mut Vec<u32>) {
        self.0.push_key(output);
        self.1.push_key(output);
        assert(output@ =~= old(output)@ + Self::key(self.deep_view()));
    }

    proof fn lemma_decodes(
        left: (A::V, B::V),
        right: (A::V, B::V),
        left_rest: Seq<u32>,
        right_rest: Seq<u32>,
    ) {
        let tail = B::key(left.1) + left_rest;
        let other_tail = B::key(right.1) + right_rest;
        assert(Self::key(left) + left_rest =~= A::key(left.0) + tail);
        assert(Self::key(right) + right_rest =~= A::key(right.0) + other_tail);
        A::lemma_decodes(left.0, right.0, tail, other_tail);
        B::lemma_decodes(left.1, right.1, left_rest, right_rest);
    }
}

/// The keys of the items from `from` on, each behind a one, closed by a zero.
pub open spec fn item_keys<T: Keyed>(items: Seq<T::V>, from: int) -> Seq<u32>
    decreases items.len() - from,
{
    if from >= items.len() {
        seq![0u32]
    } else {
        seq![1u32] + T::key(items[from]) + item_keys::<T>(items, from + 1)
    }
}

impl<T: Keyed> Keyed for Vec<T> {
    open spec fn key(view: Seq<T::V>) -> Seq<u32> {
        item_keys::<T>(view, 0)
    }

    fn push_key(&self, output: &mut Vec<u32>) {
        let mut i: usize = 0;
        while i < self.len()
            invariant
                i <= self.len(),
                output@ + item_keys::<T>(deep(self@), i as int) == old(output)@ + item_keys::<T>(
                    deep(self@),
                    0,
                ),
            decreases self.len() - i,
        {
            let ghost before = output@;
            assert(deep(self@)[i as int] == self[i as int].deep_view());
            output.push(1);
            self[i].push_key(output);
            assert(output@ + item_keys::<T>(deep(self@), i + 1) =~= before + item_keys::<T>(
                deep(self@),
                i as int,
            ));
            i += 1;
        }
        output.push(0);
        assert(output@ =~= old(output)@ + item_keys::<T>(deep(self@), 0));
        assert(self.deep_view() == deep(self@));
        assert(Self::key(self.deep_view()) == item_keys::<T>(deep(self@), 0));
    }

    proof fn lemma_decodes(
        left: Seq<T::V>,
        right: Seq<T::V>,
        left_rest: Seq<u32>,
        right_rest: Seq<u32>,
    ) {
        lemma_items::<T>(left, right, 0, left_rest, right_rest);
        assert(left =~= right);
    }
}

/// Whether `left` has a smaller key than `right`.
pub fn is_before<T: Keyed>(left: &T, right: &T) -> (result: bool)
    ensures
        result == key_precedes(T::key(left.deep_view()), T::key(right.deep_view())),
{
    let mut left_key: Vec<u32> = Vec::new();
    let mut right_key: Vec<u32> = Vec::new();
    left.push_key(&mut left_key);
    right.push_key(&mut right_key);
    assert(left_key@ =~= T::key(left.deep_view()));
    assert(right_key@ =~= T::key(right.deep_view()));
    key_is_before(&left_key, &right_key)
}

/// `items` with `item` put, from position `from` on, before the first item with a larger key,
/// unless it is met there.
pub open spec fn inserted_from<T: Keyed>(items: Seq<T::V>, item: T::V, from: int) -> Seq<T::V>
    decreases items.len() - from,
{
    if from >= items.len() {
        items.push(item)
    } else if items[from] == item {
        items
    } else if key_precedes(T::key(item), T::key(items[from])) {
        items.insert(from, item)
    } else {
        inserted_from::<T>(items, item, from + 1)
    }
}

/// The sorted set `items` with `item` in it.
pub open spec fn inserted<T: Keyed>(items: Seq<T::V>, item: T::V) -> Seq<T::V> {
    inserted_from::<T>(items, item, 0)
}

/// The sorted set `items` with the first `count` of `more` in it.
pub open spec fn extended_upto<T: Keyed>(
    items: Seq<T::V>,
    more: Seq<T::V>,
    count: int,
) -> Seq<T::V>
    decreases count,
{
    if count <= 0 {
        items
    } else {
        inserted::<T>(extended_upto::<T>(items, more, count - 1), more[count - 1])
    }
}

/// The sorted set `items` with each of `more` in it.
pub open spec fn extended<T: Keyed>(items: Seq<T::V>, more: Seq<T::V>) -> Seq<T::V> {
    extended_upto::<T>(items, more, more.len() as int)
}

/// The sorted set of `items`.
pub open spec fn sorted<T: Keyed>(items: Seq<T::V>) -> Seq<T::V> {
    extended::<T>(Seq::empty(), items)
}

/// Add an item to a sorted set.
pub fn insert_sorted<T: Keyed>(items: &mut Vec<T>, item: T)
    ensures
        deep(final(items)@) == inserted::<T>(deep(old(items)@), item.deep_view()),
{
    let mut i: usize = 0;
    while i < items.len()
        invariant
            i <= items.len(),
            *items == *old(items),
            inserted::<T>(deep(items@), item.deep_view()) == inserted_from::<T>(
                deep(items@),
                item.deep_view(),
                i as int,
            ),
        decreases items.len() - i,
    {
        assert(deep(items@)[i as int] == items[i as int].deep_view());
        if items[i].equals(&item) {
            return ;
        }
        if is_before(&item, &items[i]) {
            items.insert(i, item);
            assert(deep(items@) =~= deep(old(items)@).insert(i as int, item.deep_view()));
            return ;
        }
        i += 1;
    }
    items.push(item);
}

/// Insert each of `more`.
pub fn extend_sorted<T: Keyed>(items: &mut Vec<T>, more: &[T])
    ensures
        deep(final(items)@) == extended::<T>(deep(old(items)@), deep(more@)),
{
    let mut i: usize = 0;
    while i < more.len()
        invariant
            i <= more.len(),
            deep(items@) == extended_upto::<T>(deep(old(items)@), deep(more@), i as int),
        decreases more.len() - i,
    {
        assert(deep(more@)[i as int] == more[i as int].deep_view());
        insert_sorted(items, more[i].duplicate());
        i += 1;
    }
}

/// The sorted set of `items`.
pub fn into_sorted<T: Keyed>(items: &[T]) -> (result: Vec<T>)
    ensures
        deep(result@) == sorted::<T>(deep(items@)),
{
    let mut result: Vec<T> = Vec::new();
    extend_sorted(&mut result, items);
    result
}

/// `items` with `item` put, from position `from` on, before the first item with a larger key.
pub open spec fn placed_from<T: Keyed>(items: Seq<T::V>, item: T::V, from: int) -> Seq<T::V>
    decreases items.len() - from,
{
    if from >= items.len() {
        items.push(item)
    } else if key_precedes(T::key(item), T::key(items[from])) {
        items.insert(from, item)
    } else {
        placed_from::<T>(items, item, from + 1)
    }
}

/// The first `count` of `items` in the order of their keys.
pub open spec fn ordered_upto<T: Keyed>(items: Seq<T::V>, count: int) -> Seq<T::V>
    decreases count,
{
    if count <= 0 {
        Seq::empty()
    } else {
        placed_from::<T>(ordered_upto::<T>(items, count - 1), items[count - 1], 0)
    }
}

/// The items in the order of their keys, each as often as it occurs.
pub open spec fn ordered<T: Keyed>(items: Seq<T::V>) -> Seq<T::V> {
    ordered_upto::<T>(items, items.len() as int)
}

fn place<T: Keyed>(items: &mut Vec<T>, item: T)
    ensures
        deep(final(items)@) == placed_from::<T>(deep(old(items)@), item.deep_view(), 0),
{
    let mut i: usize = 0;
    while i < items.len()
        invariant
            i <= items.len(),
            *items == *old(items),
            placed_from::<T>(deep(items@), item.deep_view(), 0) == placed_from::<T>(
                deep(items@),
                item.deep_view(),
                i as int,
            ),
        decreases items.len() - i,
    {
        assert(deep(items@)[i as int] == items[i as int].deep_view());
        if is_before(&item, &items[i]) {
            items.insert(i, item);
            assert(deep(items@) =~= deep(old(items)@).insert(i as int, item.deep_view()));
            return ;
        }
        i += 1;
    }
    items.push(item);
}

/// The items in the order of their keys, each as often as it occurs.
pub fn into_ordered<T: Keyed>(items: &[T]) -> (result: Vec<T>)
    ensures
        deep(result@) == ordered::<T>(deep(items@)),
{
    let mut result: Vec<T> = Vec::new();
    let mut i: usize = 0;
    while i < items.len()
        invariant
            i <= items.len(),
            deep(result@) == ordered_upto::<T>(deep(items@), i as int),
        decreases items.len() - i,
    {
        assert(deep(items@)[i as int] == items[i as int].deep_view());
        place(&mut result, items[i].duplicate());
        i += 1;
    }
    result
}

/// An item is in the sorted set after an insertion when it was there, or is the one inserted.
pub proof fn lemma_inserted_contains<T: Keyed>(items: Seq<T::V>, item: T::V, from: int, other: T::V)
    requires
        0 <= from <= items.len(),
    ensures
        inserted_from::<T>(items, item, from).contains(other) <==> items.contains(other) || other
            == item,
    decreases items.len() - from,
{
    let result = inserted_from::<T>(items, item, from);
    if from >= items.len() {
        assert(result == items.push(item));
        assert(result[items.len() as int] == item);
        if items.contains(other) {
            let i = choose|i: int| 0 <= i < items.len() && items[i] == other;
            assert(result[i] == other);
        }
    } else if items[from] == item {
    } else if key_precedes(T::key(item), T::key(items[from])) {
        assert(result[from] == item);
        if items.contains(other) {
            let i = choose|i: int| 0 <= i < items.len() && items[i] == other;
            if i < from {
                assert(result[i] == other);
            } else {
                assert(result[i + 1] == other);
            }
        }
        if result.contains(other) {
            let i = choose|i: int| 0 <= i < result.len() && result[i] == other;
            if i < from {
                assert(items[i] == other);
            } else if i > from {
                assert(items[i - 1] == other);
            }
        }
    } else {
        lemma_inserted_contains::<T>(items, item, from + 1, other);
    }
}

// ---------------------------------------------------------------------------------------------
// Sorts of terms
// ---------------------------------------------------------------------------------------------
/// The position of `name` among `names` from `from` on.
pub open spec fn position_from(names: Seq<Seq<char>>, name: Seq<char>, from: int) -> Option<int>
    decreases names.len() - from,
{
    if from >= names.len() {
        None
    } else if names[from] == name {
        Some(from)
    } else {
        position_from(names, name, from + 1)
    }
}

/// `sort` with each sort parameter replaced by the sort argument in its position.
pub open spec fn instantiated_sort(
    sort: SortV,
    parameters: Seq<Seq<char>>,
    arguments: Seq<SortV>,
) -> SortV
    decreases sort,
{
    match sort {
        SortV::Variable(name) => match position_from(parameters, name, 0) {
            Some(i) => if i < arguments.len() {
                arguments[i]
            } else {
                sort
            },
            None => sort,
        },
        SortV::Application { name, arguments: inner } => SortV::Application {
            name,
            arguments: Seq::new(
                inner.len(),
                |i: int|
                    if 0 <= i < inner.len() {
                        instantiated_sort(inner[i], parameters, arguments)
                    } else {
                        arbitrary()
                    },
            ),
        },
    }
}

/// `sort` with the parameters replaced by the arguments.
pub fn instantiate_sort(sort: &Sort, parameters: &Vec<String>, arguments: &Vec<Sort>) -> (result:
    Sort)
    ensures
        result@ == instantiated_sort(sort@, deep(parameters@), deep(arguments@)),
    decreases sort@,
{
    match sort {
        Sort::Variable(name) => {
            let mut i: usize = 0;
            while i < parameters.len()
                invariant
                    i <= parameters.len(),
                    position_from(deep(parameters@), name@, 0) == position_from(
                        deep(parameters@),
                        name@,
                        i as int,
                    ),
                    sort@ == SortV::Variable(name@),
                decreases parameters.len() - i,
            {
                assert(deep(parameters@)[i as int] == parameters[i as int]@);
                if parameters[i] == *name {
                    if i < arguments.len() {
                        return arguments[i].duplicate();
                    }
                    return sort.duplicate();
                }
                i += 1;
            }
            sort.duplicate()
        },
        Sort::Application { name, arguments: inner } => {
            let mut result: Vec<Sort> = Vec::new();
            let mut i: usize = 0;
            while i < inner.len()
                invariant
                    i <= inner.len(),
                    sort@ is Application,
                    sort@->arguments == deep(inner@),
                    result.len() == i,
                    forall|j: int|
                        0 <= j < i ==> (#[trigger] result[j])@ == instantiated_sort(
                            inner[j]@,
                            deep(parameters@),
                            deep(arguments@),
                        ),
                decreases inner.len() - i,
            {
                assert(sort@->arguments[i as int] == inner[i as int]@);
                result.push(instantiate_sort(&inner[i], parameters, arguments));
                i += 1;
            }
            let made = Sort::Application { name: name.clone(), arguments: result };
            assert(made@->arguments =~= instantiated_sort(
                sort@,
                deep(parameters@),
                deep(arguments@),
            )->arguments);
            made
        },
    }
}

/// The sort of a term.
pub open spec fn sort_of(term: TermV) -> SortV
    decreases term,
{
    match term {
        TermV::And(left, _) => sort_of(*left),
        TermV::Application { symbol, sort_arguments, .. } => instantiated_sort(
            symbol.result_sort,
            symbol.sort_variables,
            sort_arguments,
        ),
        TermV::DomainValue { sort, .. } => sort,
        TermV::Variable(variable) => variable.sort,
        TermV::Injection { target, .. } => target,
        TermV::KMap { definition, .. } => definition.sort,
        TermV::KList { definition, .. } => definition.sort,
        TermV::KSet { definition, .. } => definition.sort,
    }
}

impl Term {
    /// The sort of a term.
    pub fn sort(&self) -> (sort: Sort)
        ensures
            sort@ == sort_of(self@),
        decreases self@,
    {
        match self {
            Term::And(left, _) => left.sort(),
            Term::Application { symbol, sort_arguments, .. } => instantiate_sort(
                &symbol.result_sort,
                &symbol.sort_variables,
                sort_arguments,
            ),
            Term::DomainValue { sort, .. } => sort.duplicate(),
            Term::Variable(variable) => variable.sort.duplicate(),
            Term::Injection { target, .. } => target.duplicate(),
            Term::KMap { definition, .. } => definition.sort.duplicate(),
            Term::KList { definition, .. } => definition.sort.duplicate(),
            Term::KSet { definition, .. } => definition.sort.duplicate(),
        }
    }
}

} // verus!
