//! Keys tell values apart: a key ends where it ends, and no two values have the same.

use vstd::prelude::*;
use crate::model::{deep, group_deep};
use crate::ops::{
    child_keys, children, head_key, item_keys, lemma_child_smaller, ones, push_sort_key,
    push_sort_keys, push_text_key, rest_key, rest_seq, sort_key, sort_keys, term_key, text_key,
    text_key_from, variable_key, Keyed,
};
use crate::sexpr::{lemma_sexpr_view, SExpr, SExprV, SmtType, SmtTypeV};
use crate::term::{
    CollectionDefinition, CollectionDefinitionV, CollectionMetadata, CollectionMetadataV,
    FunctionType, Sort, SortV, Symbol, SymbolAttributes, SymbolAttributesV, SymbolType, SymbolV,
    TermV, VariableV,
};

verus! {

broadcast use group_deep;

// ---------------------------------------------------------------------------------------------
// Texts and sorts
// ---------------------------------------------------------------------------------------------
proof fn lemma_char(c: char)
    ensures
        c as u32 <= 0x10ffff,
{
}

proof fn lemma_chars(left: char, right: char)
    requires
        left as u32 == right as u32,
    ensures
        left == right,
{
}

/// A key of one number and two parts, in front of a rest, part by part.
pub proof fn lemma_parts(number: u32, first: Seq<u32>, second: Seq<u32>, rest: Seq<u32>)
    ensures
        (seq![number] + first + second + rest)[0] == number,
        (seq![number] + first + second + rest).skip(1) == first + (second + rest),
{
    assert((seq![number] + first + second + rest).skip(1) =~= first + (second + rest));
}

/// A key of one number and three parts, in front of a rest, part by part.
proof fn lemma_more_parts(
    number: u32,
    first: Seq<u32>,
    second: Seq<u32>,
    third: Seq<u32>,
    rest: Seq<u32>,
)
    ensures
        (seq![number] + first + second + third + rest)[0] == number,
        (seq![number] + first + second + third + rest).skip(1) == first + (second + (third + rest)),
{
    assert((seq![number] + first + second + third + rest).skip(1) =~= first + (second + (third
        + rest)));
}

/// A key of one number and a part, in front of a rest, part by part.
pub proof fn lemma_part(number: u32, first: Seq<u32>, rest: Seq<u32>)
    ensures
        (seq![number] + first + rest)[0] == number,
        (seq![number] + first + rest).skip(1) == first + rest,
{
    assert((seq![number] + first + rest).skip(1) =~= first + rest);
}

/// A key of four parts, in front of a rest, part by part.
proof fn lemma_four(a: Seq<u32>, b: Seq<u32>, c: Seq<u32>, d: Seq<u32>, rest: Seq<u32>)
    ensures
        a + b + c + d + rest == a + (b + (c + (d + rest))),
{
    assert(a + b + c + d + rest =~= a + (b + (c + (d + rest))));
}

/// A key of five parts, in front of a rest, part by part.
proof fn lemma_five(
    a: Seq<u32>,
    b: Seq<u32>,
    c: Seq<u32>,
    d: Seq<u32>,
    e: Seq<u32>,
    rest: Seq<u32>,
)
    ensures
        a + b + c + d + e + rest == a + (b + (c + (d + (e + rest)))),
{
    assert(a + b + c + d + e + rest =~= a + (b + (c + (d + (e + rest)))));
}

proof fn lemma_text_from(
    left: Seq<char>,
    right: Seq<char>,
    from: int,
    left_rest: Seq<u32>,
    right_rest: Seq<u32>,
)
    requires
        0 <= from <= left.len(),
        from <= right.len(),
        text_key_from(left, from) + left_rest == text_key_from(right, from) + right_rest,
    ensures
        left.len() == right.len(),
        forall|i: int| from <= i < left.len() ==> left[i] == right[i],
        left_rest == right_rest,
    decreases left.len() - from,
{
    let all = text_key_from(left, from) + left_rest;
    let other = text_key_from(right, from) + right_rest;
    assert(all[0] == text_key_from(left, from)[0]);
    assert(other[0] == text_key_from(right, from)[0]);
    if from < left.len() {
        lemma_char(left[from]);
    }
    if from < right.len() {
        lemma_char(right[from]);
    }
    if from < left.len() && from < right.len() {
        assert(all.skip(1) =~= text_key_from(left, from + 1) + left_rest);
        assert(other.skip(1) =~= text_key_from(right, from + 1) + right_rest);
        lemma_chars(left[from], right[from]);
        lemma_text_from(left, right, from + 1, left_rest, right_rest);
    } else {
        assert(left_rest =~= all.skip(1));
        assert(right_rest =~= other.skip(1));
    }
}

/// The key of a text tells where it ends, and the text.
pub proof fn lemma_text(
    left: Seq<char>,
    right: Seq<char>,
    left_rest: Seq<u32>,
    right_rest: Seq<u32>,
)
    requires
        text_key(left) + left_rest == text_key(right) + right_rest,
    ensures
        left == right,
        left_rest == right_rest,
{
    lemma_text_from(left, right, 0, left_rest, right_rest);
    assert(left =~= right);
}

/// The key of a sort tells where it ends, and the sort.
pub proof fn lemma_sort(
    left: SortV,
    right: SortV,
    left_rest: Seq<u32>,
    right_rest: Seq<u32>,
)
    requires
        sort_key(left) + left_rest == sort_key(right) + right_rest,
    ensures
        left == right,
        left_rest == right_rest,
    decreases left, 0int,
{
    let all = sort_key(left) + left_rest;
    let other = sort_key(right) + right_rest;
    assert(all[0] == sort_key(left)[0]);
    assert(other[0] == sort_key(right)[0]);
    match (left, right) {
        (SortV::Variable(name), SortV::Variable(other_name)) => {
            assert(all.skip(1) =~= text_key(name) + left_rest);
            assert(other.skip(1) =~= text_key(other_name) + right_rest);
            lemma_text(name, other_name, left_rest, right_rest);
        },
        (
            SortV::Application { name, arguments },
            SortV::Application { name: other_name, arguments: other_arguments },
        ) => {
            let tail = sort_keys(arguments, 0) + left_rest;
            let other_tail = sort_keys(other_arguments, 0) + right_rest;
            assert(all.skip(1) =~= text_key(name) + tail);
            assert(other.skip(1) =~= text_key(other_name) + other_tail);
            lemma_text(name, other_name, tail, other_tail);
            lemma_sorts(arguments, other_arguments, 0, left_rest, right_rest);
            assert(arguments =~= other_arguments);
        },
        _ => {},
    }
}

/// The keys of sorts tell where they end, and the sorts.
pub proof fn lemma_sorts(
    left: Seq<SortV>,
    right: Seq<SortV>,
    from: int,
    left_rest: Seq<u32>,
    right_rest: Seq<u32>,
)
    requires
        0 <= from <= left.len(),
        from <= right.len(),
        sort_keys(left, from) + left_rest == sort_keys(right, from) + right_rest,
    ensures
        left.len() == right.len(),
        forall|i: int| from <= i < left.len() ==> left[i] == right[i],
        left_rest == right_rest,
    decreases left, left.len() - from,
{
    let all = sort_keys(left, from) + left_rest;
    let other = sort_keys(right, from) + right_rest;
    assert(all[0] == other[0]);
    if from < left.len() {
        assert(sort_key(left[from])[0] != 0);
        assert(all[0] == sort_key(left[from])[0]);
    }
    if from < right.len() {
        assert(sort_key(right[from])[0] != 0);
        assert(other[0] == sort_key(right[from])[0]);
    }
    if from < left.len() && from < right.len() {
        let tail = sort_keys(left, from + 1) + left_rest;
        let other_tail = sort_keys(right, from + 1) + right_rest;
        assert(all =~= sort_key(left[from]) + tail);
        assert(other =~= sort_key(right[from]) + other_tail);
        lemma_sort(left[from], right[from], tail, other_tail);
        lemma_sorts(left, right, from + 1, left_rest, right_rest);
    } else {
        assert(left_rest =~= all.skip(1));
        assert(right_rest =~= other.skip(1));
    }
}

/// The key of a variable tells where it ends, and the variable.
pub proof fn lemma_variable(
    left: VariableV,
    right: VariableV,
    left_rest: Seq<u32>,
    right_rest: Seq<u32>,
)
    requires
        variable_key(left) + left_rest == variable_key(right) + right_rest,
    ensures
        left == right,
        left_rest == right_rest,
{
    let kind = variable_key(left).last();
    let other_kind = variable_key(right).last();
    let tail = seq![kind] + left_rest;
    let other_tail = seq![other_kind] + right_rest;
    assert(variable_key(left) + left_rest =~= text_key(left.name) + (sort_key(left.sort) + tail));
    assert(variable_key(right) + right_rest =~= text_key(right.name) + (sort_key(right.sort)
        + other_tail));
    lemma_text(left.name, right.name, sort_key(left.sort) + tail, sort_key(right.sort) + other_tail);
    lemma_sort(left.sort, right.sort, tail, other_tail);
    assert(tail[0] == other_tail[0]);
    assert(left_rest =~= tail.skip(1));
    assert(right_rest =~= other_tail.skip(1));
}

// ---------------------------------------------------------------------------------------------
// Sequences
// ---------------------------------------------------------------------------------------------
/// The keys of items tell where they end, and the items.
pub proof fn lemma_items<T: Keyed>(
    left: Seq<T::V>,
    right: Seq<T::V>,
    from: int,
    left_rest: Seq<u32>,
    right_rest: Seq<u32>,
)
    requires
        0 <= from <= left.len(),
        from <= right.len(),
        item_keys::<T>(left, from) + left_rest == item_keys::<T>(right, from) + right_rest,
    ensures
        left.len() == right.len(),
        forall|i: int| from <= i < left.len() ==> left[i] == right[i],
        left_rest == right_rest,
    decreases left.len() - from,
{
    let all = item_keys::<T>(left, from) + left_rest;
    let other = item_keys::<T>(right, from) + right_rest;
    assert(all[0] == other[0]);
    if from < left.len() && from < right.len() {
        let tail = item_keys::<T>(left, from + 1) + left_rest;
        let other_tail = item_keys::<T>(right, from + 1) + right_rest;
        assert(all.skip(1) =~= T::key(left[from]) + tail);
        assert(other.skip(1) =~= T::key(right[from]) + other_tail);
        T::lemma_decodes(left[from], right[from], tail, other_tail);
        lemma_items::<T>(left, right, from + 1, left_rest, right_rest);
    } else {
        assert(left_rest =~= all.skip(1));
        assert(right_rest =~= other.skip(1));
    }
}

/// A count as a key tells where it ends, and the count.
pub proof fn lemma_ones(left: nat, right: nat, left_rest: Seq<u32>, right_rest: Seq<u32>)
    requires
        ones(left) + left_rest == ones(right) + right_rest,
    ensures
        left == right,
        left_rest == right_rest,
    decreases left,
{
    let all = ones(left) + left_rest;
    let other = ones(right) + right_rest;
    assert(all[0] == other[0]);
    if left > 0 && right > 0 {
        assert(all.skip(1) =~= ones((left - 1) as nat) + left_rest);
        assert(other.skip(1) =~= ones((right - 1) as nat) + right_rest);
        lemma_ones((left - 1) as nat, (right - 1) as nat, left_rest, right_rest);
    } else {
        assert(left_rest =~= all.skip(1));
        assert(right_rest =~= other.skip(1));
    }
}

// ---------------------------------------------------------------------------------------------
// Symbols
// ---------------------------------------------------------------------------------------------
/// A part of a key that tells a truth value.
pub open spec fn flag(value: bool) -> u32 {
    if value {
        2
    } else {
        1
    }
}

fn to_flag(value: bool) -> (result: u32)
    ensures
        result == flag(value),
{
    if value {
        2
    } else {
        1
    }
}

impl<T: Keyed> Keyed for Option<T> {
    open spec fn key(view: Option<T::V>) -> Seq<u32> {
        match view {
            Some(value) => seq![2u32] + T::key(value),
            None => seq![1u32],
        }
    }

    fn push_key(&self, output: &mut Vec<u32>) {
        match self {
            Some(value) => {
                output.push(2);
                value.push_key(output);
            },
            None => output.push(1),
        }
        assert(output@ =~= old(output)@ + Self::key(self.deep_view()));
    }

    proof fn lemma_decodes(
        left: Option<T::V>,
        right: Option<T::V>,
        left_rest: Seq<u32>,
        right_rest: Seq<u32>,
    ) {
        let all = Self::key(left) + left_rest;
        let other = Self::key(right) + right_rest;
        assert(all[0] == Self::key(left)[0]);
        assert(other[0] == Self::key(right)[0]);
        match (left, right) {
            (Some(value), Some(other_value)) => {
                assert(all.skip(1) =~= T::key(value) + left_rest);
                assert(other.skip(1) =~= T::key(other_value) + right_rest);
                T::lemma_decodes(value, other_value, left_rest, right_rest);
            },
            _ => {
                assert(left_rest =~= all.skip(1));
                assert(right_rest =~= other.skip(1));
            },
        }
    }
}

impl Keyed for Sort {
    open spec fn key(view: SortV) -> Seq<u32> {
        sort_key(view)
    }

    fn push_key(&self, output: &mut Vec<u32>) {
        push_sort_key(self, output);
    }

    proof fn lemma_decodes(
        left: SortV,
        right: SortV,
        left_rest: Seq<u32>,
        right_rest: Seq<u32>,
    ) {
        lemma_sort(left, right, left_rest, right_rest);
    }
}

/// The key of an expression.
pub open spec fn expression_key(expression: SExprV) -> Seq<u32>
    decreases expression, 0int,
{
    match expression {
        SExprV::Atom(name) => seq![1u32] + text_key(name),
        SExprV::List(items) => seq![2u32] + expression_keys(items, 0),
    }
}

/// The keys of the expressions from `from` on, closed by a zero.
pub open spec fn expression_keys(items: Seq<SExprV>, from: int) -> Seq<u32>
    decreases items, items.len() - from,
{
    if 0 <= from < items.len() {
        expression_key(items[from]) + expression_keys(items, from + 1)
    } else {
        seq![0u32]
    }
}

fn push_expression_key(expression: &SExpr, output: &mut Vec<u32>)
    ensures
        final(output)@ == old(output)@ + expression_key(expression@),
    decreases expression@, 0int,
{
    proof {
        lemma_sexpr_view(*expression);
    }
    match expression {
        SExpr::Atom(name) => {
            output.push(1);
            push_text_key(name, output);
            assert(output@ =~= old(output)@ + expression_key(expression@));
        },
        SExpr::List(items) => {
            output.push(2);
            assert(decreases_to!(expression@ => expression@->List_0));
            push_expression_keys(items, output);
            assert(output@ =~= old(output)@ + expression_key(expression@));
        },
    }
}

fn push_expression_keys(items: &Vec<SExpr>, output: &mut Vec<u32>)
    ensures
        final(output)@ == old(output)@ + expression_keys(deep(items@), 0),
    decreases deep(items@), items@.len(),
{
    let mut i: usize = 0;
    while i < items.len()
        invariant
            i <= items.len(),
            output@ + expression_keys(deep(items@), i as int) == old(output)@ + expression_keys(
                deep(items@),
                0,
            ),
        decreases items.len() - i,
    {
        let ghost before = output@;
        assert(deep(items@)[i as int] == items[i as int]@);
        push_expression_key(&items[i], output);
        assert(output@ + expression_keys(deep(items@), i + 1) =~= before + expression_keys(
            deep(items@),
            i as int,
        ));
        i += 1;
    }
    output.push(0);
    assert(output@ =~= old(output)@ + expression_keys(deep(items@), 0));
}

proof fn lemma_expression(
    left: SExprV,
    right: SExprV,
    left_rest: Seq<u32>,
    right_rest: Seq<u32>,
)
    requires
        expression_key(left) + left_rest == expression_key(right) + right_rest,
    ensures
        left == right,
        left_rest == right_rest,
    decreases left, 0int,
{
    let all = expression_key(left) + left_rest;
    let other = expression_key(right) + right_rest;
    assert(all[0] == expression_key(left)[0]);
    assert(other[0] == expression_key(right)[0]);
    match (left, right) {
        (SExprV::Atom(name), SExprV::Atom(other_name)) => {
            assert(all.skip(1) =~= text_key(name) + left_rest);
            assert(other.skip(1) =~= text_key(other_name) + right_rest);
            lemma_text(name, other_name, left_rest, right_rest);
        },
        (SExprV::List(items), SExprV::List(other_items)) => {
            assert(all.skip(1) =~= expression_keys(items, 0) + left_rest);
            assert(other.skip(1) =~= expression_keys(other_items, 0) + right_rest);
            lemma_expressions(items, other_items, 0, left_rest, right_rest);
            assert(items =~= other_items);
        },
        _ => {},
    }
}

proof fn lemma_expressions(
    left: Seq<SExprV>,
    right: Seq<SExprV>,
    from: int,
    left_rest: Seq<u32>,
    right_rest: Seq<u32>,
)
    requires
        0 <= from <= left.len(),
        from <= right.len(),
        expression_keys(left, from) + left_rest == expression_keys(right, from) + right_rest,
    ensures
        left.len() == right.len(),
        forall|i: int| from <= i < left.len() ==> left[i] == right[i],
        left_rest == right_rest,
    decreases left, left.len() - from,
{
    let all = expression_keys(left, from) + left_rest;
    let other = expression_keys(right, from) + right_rest;
    assert(all[0] == other[0]);
    if from < left.len() {
        assert(expression_key(left[from])[0] != 0);
        assert(all[0] == expression_key(left[from])[0]);
    }
    if from < right.len() {
        assert(expression_key(right[from])[0] != 0);
        assert(other[0] == expression_key(right[from])[0]);
    }
    if from < left.len() && from < right.len() {
        let tail = expression_keys(left, from + 1) + left_rest;
        let other_tail = expression_keys(right, from + 1) + right_rest;
        assert(all =~= expression_key(left[from]) + tail);
        assert(other =~= expression_key(right[from]) + other_tail);
        lemma_expression(left[from], right[from], tail, other_tail);
        lemma_expressions(left, right, from + 1, left_rest, right_rest);
    } else {
        assert(left_rest =~= all.skip(1));
        assert(right_rest =~= other.skip(1));
    }
}

impl Keyed for SmtType {
    open spec fn key(view: SmtTypeV) -> Seq<u32> {
        match view {
            SmtTypeV::Lib(name) => seq![1u32] + text_key(name),
            SmtTypeV::Hook(expression) => seq![2u32] + expression_key(expression),
        }
    }

    fn push_key(&self, output: &mut Vec<u32>) {
        match self {
            SmtType::Lib(name) => {
                output.push(1);
                push_text_key(name, output);
            },
            SmtType::Hook(expression) => {
                output.push(2);
                push_expression_key(expression, output);
            },
        }
        assert(output@ =~= old(output)@ + Self::key(self.deep_view()));
    }

    proof fn lemma_decodes(
        left: SmtTypeV,
        right: SmtTypeV,
        left_rest: Seq<u32>,
        right_rest: Seq<u32>,
    ) {
        let all = Self::key(left) + left_rest;
        let other = Self::key(right) + right_rest;
        assert(all[0] == Self::key(left)[0]);
        assert(other[0] == Self::key(right)[0]);
        match (left, right) {
            (SmtTypeV::Lib(name), SmtTypeV::Lib(other_name)) => {
                assert(all.skip(1) =~= text_key(name) + left_rest);
                assert(other.skip(1) =~= text_key(other_name) + right_rest);
                lemma_text(name, other_name, left_rest, right_rest);
            },
            (SmtTypeV::Hook(expression), SmtTypeV::Hook(other_expression)) => {
                assert(all.skip(1) =~= expression_key(expression) + left_rest);
                assert(other.skip(1) =~= expression_key(other_expression) + right_rest);
                lemma_expression(expression, other_expression, left_rest, right_rest);
            },
            _ => {},
        }
    }
}

/// The key of what a kind of collections is made with.
#[verifier::opaque]
pub open spec fn collection_key(definition: CollectionDefinitionV) -> Seq<u32> {
    text_key(definition.concat) + text_key(definition.unit) + text_key(definition.element)
        + sort_key(definition.sort)
}

impl Keyed for CollectionDefinition {
    open spec fn key(view: CollectionDefinitionV) -> Seq<u32> {
        collection_key(view)
    }

    fn push_key(&self, output: &mut Vec<u32>) {
        reveal(collection_key);
        push_text_key(&self.concat, output);
        push_text_key(&self.unit, output);
        push_text_key(&self.element, output);
        push_sort_key(&self.sort, output);
        assert(output@ =~= old(output)@ + Self::key(self.deep_view()));
    }

    proof fn lemma_decodes(
        left: CollectionDefinitionV,
        right: CollectionDefinitionV,
        left_rest: Seq<u32>,
        right_rest: Seq<u32>,
    ) {
        reveal(collection_key);
        let a = sort_key(left.sort) + left_rest;
        let b = sort_key(right.sort) + right_rest;
        let c = text_key(left.element) + a;
        let d = text_key(right.element) + b;
        let e = text_key(left.unit) + c;
        let f = text_key(right.unit) + d;
        lemma_four(
            text_key(left.concat),
            text_key(left.unit),
            text_key(left.element),
            sort_key(left.sort),
            left_rest,
        );
        lemma_four(
            text_key(right.concat),
            text_key(right.unit),
            text_key(right.element),
            sort_key(right.sort),
            right_rest,
        );
        lemma_text(left.concat, right.concat, e, f);
        lemma_text(left.unit, right.unit, c, d);
        lemma_text(left.element, right.element, a, b);
        lemma_sort(left.sort, right.sort, left_rest, right_rest);
    }
}

impl Keyed for CollectionMetadata {
    open spec fn key(view: CollectionMetadataV) -> Seq<u32> {
        match view {
            CollectionMetadataV::KMap(definition) => seq![1u32] + collection_key(definition),
            CollectionMetadataV::KList(definition) => seq![2u32] + collection_key(definition),
            CollectionMetadataV::KSet(definition) => seq![3u32] + collection_key(definition),
        }
    }

    fn push_key(&self, output: &mut Vec<u32>) {
        match self {
            CollectionMetadata::KMap(definition) => {
                output.push(1);
                definition.push_key(output);
            },
            CollectionMetadata::KList(definition) => {
                output.push(2);
                definition.push_key(output);
            },
            CollectionMetadata::KSet(definition) => {
                output.push(3);
                definition.push_key(output);
            },
        }
        assert(output@ =~= old(output)@ + Self::key(self.deep_view()));
    }

    proof fn lemma_decodes(
        left: CollectionMetadataV,
        right: CollectionMetadataV,
        left_rest: Seq<u32>,
        right_rest: Seq<u32>,
    ) {
        let all = Self::key(left) + left_rest;
        let other = Self::key(right) + right_rest;
        assert(all[0] == Self::key(left)[0]);
        assert(other[0] == Self::key(right)[0]);
        match (left, right) {
            (CollectionMetadataV::KMap(a), CollectionMetadataV::KMap(b)) | (
                CollectionMetadataV::KList(a),
                CollectionMetadataV::KList(b),
            ) | (CollectionMetadataV::KSet(a), CollectionMetadataV::KSet(b)) => {
                assert(all.skip(1) =~= collection_key(a) + left_rest);
                assert(other.skip(1) =~= collection_key(b) + right_rest);
                CollectionDefinition::lemma_decodes(a, b, left_rest, right_rest);
            },
            _ => {},
        }
    }
}

/// The part of a key that tells the type and the properties of a symbol.
pub open spec fn flags_key(attributes: SymbolAttributesV) -> Seq<u32> {
    seq![
        match attributes.symbol_type {
            SymbolType::Constructor => 1u32,
            SymbolType::Function(FunctionType::Total) => 2u32,
            SymbolType::Function(FunctionType::Partial) => 3u32,
        },
        flag(attributes.associative),
        flag(attributes.idempotent),
        flag(attributes.injective),
        flag(attributes.macro_or_alias),
        flag(attributes.has_evaluators),
    ]
}

proof fn lemma_flags(
    left: SymbolAttributesV,
    right: SymbolAttributesV,
    left_rest: Seq<u32>,
    right_rest: Seq<u32>,
)
    requires
        flags_key(left) + left_rest == flags_key(right) + right_rest,
    ensures
        left.symbol_type == right.symbol_type,
        left.associative == right.associative,
        left.idempotent == right.idempotent,
        left.injective == right.injective,
        left.macro_or_alias == right.macro_or_alias,
        left.has_evaluators == right.has_evaluators,
        left_rest == right_rest,
{
    let a = flags_key(left);
    let b = flags_key(right);
    let all = a + left_rest;
    let other = b + right_rest;
    assert(all.take(6) =~= a);
    assert(other.take(6) =~= b);
    assert(a[0] == b[0] && a[1] == b[1] && a[2] == b[2] && a[3] == b[3] && a[4] == b[4] && a[5]
        == b[5]);
    assert(all.skip(6) =~= left_rest);
    assert(other.skip(6) =~= right_rest);
}

impl Keyed for SymbolAttributes {
    open spec fn key(view: SymbolAttributesV) -> Seq<u32> {
        flags_key(view) + Option::<SmtType>::key(view.smt) + Option::<String>::key(view.hook)
            + Option::<CollectionMetadata>::key(view.collection)
    }

    fn push_key(&self, output: &mut Vec<u32>) {
        output.push(
            match self.symbol_type {
                SymbolType::Constructor => 1u32,
                SymbolType::Function(FunctionType::Total) => 2u32,
                SymbolType::Function(FunctionType::Partial) => 3u32,
            },
        );
        output.push(to_flag(self.associative));
        output.push(to_flag(self.idempotent));
        output.push(to_flag(self.injective));
        output.push(to_flag(self.macro_or_alias));
        output.push(to_flag(self.has_evaluators));
        assert(output@ =~= old(output)@ + flags_key(self@));
        self.smt.push_key(output);
        self.hook.push_key(output);
        self.collection.push_key(output);
        assert(output@ =~= old(output)@ + Self::key(self.deep_view()));
    }

    proof fn lemma_decodes(
        left: SymbolAttributesV,
        right: SymbolAttributesV,
        left_rest: Seq<u32>,
        right_rest: Seq<u32>,
    ) {
        let a = Option::<CollectionMetadata>::key(left.collection) + left_rest;
        let b = Option::<CollectionMetadata>::key(right.collection) + right_rest;
        let c = Option::<String>::key(left.hook) + a;
        let d = Option::<String>::key(right.hook) + b;
        let e = Option::<SmtType>::key(left.smt) + c;
        let f = Option::<SmtType>::key(right.smt) + d;
        lemma_four(
            flags_key(left),
            Option::<SmtType>::key(left.smt),
            Option::<String>::key(left.hook),
            Option::<CollectionMetadata>::key(left.collection),
            left_rest,
        );
        lemma_four(
            flags_key(right),
            Option::<SmtType>::key(right.smt),
            Option::<String>::key(right.hook),
            Option::<CollectionMetadata>::key(right.collection),
            right_rest,
        );
        lemma_flags(left, right, e, f);
        Option::<SmtType>::lemma_decodes(left.smt, right.smt, c, d);
        Option::<String>::lemma_decodes(left.hook, right.hook, a, b);
        Option::<CollectionMetadata>::lemma_decodes(
            left.collection,
            right.collection,
            left_rest,
            right_rest,
        );
    }
}

/// The key of a symbol.
#[verifier::opaque]
pub open spec fn symbol_key(symbol: SymbolV) -> Seq<u32> {
    text_key(symbol.name) + item_keys::<String>(symbol.sort_variables, 0) + sort_keys(
        symbol.argument_sorts,
        0,
    ) + sort_key(symbol.result_sort) + SymbolAttributes::key(symbol.attributes)
}

impl Keyed for Symbol {
    open spec fn key(view: SymbolV) -> Seq<u32> {
        symbol_key(view)
    }

    fn push_key(&self, output: &mut Vec<u32>) {
        reveal(symbol_key);
        push_text_key(&self.name, output);
        self.sort_variables.push_key(output);
        push_sort_keys(&self.argument_sorts, output);
        push_sort_key(&self.result_sort, output);
        self.attributes.push_key(output);
        assert(output@ =~= old(output)@ + Self::key(self.deep_view()));
    }

    proof fn lemma_decodes(
        left: SymbolV,
        right: SymbolV,
        left_rest: Seq<u32>,
        right_rest: Seq<u32>,
    ) {
        reveal(symbol_key);
        let a = SymbolAttributes::key(left.attributes) + left_rest;
        let b = SymbolAttributes::key(right.attributes) + right_rest;
        let c = sort_key(left.result_sort) + a;
        let d = sort_key(right.result_sort) + b;
        let e = sort_keys(left.argument_sorts, 0) + c;
        let f = sort_keys(right.argument_sorts, 0) + d;
        let g = item_keys::<String>(left.sort_variables, 0) + e;
        let h = item_keys::<String>(right.sort_variables, 0) + f;
        lemma_five(
            text_key(left.name),
            item_keys::<String>(left.sort_variables, 0),
            sort_keys(left.argument_sorts, 0),
            sort_key(left.result_sort),
            SymbolAttributes::key(left.attributes),
            left_rest,
        );
        lemma_five(
            text_key(right.name),
            item_keys::<String>(right.sort_variables, 0),
            sort_keys(right.argument_sorts, 0),
            sort_key(right.result_sort),
            SymbolAttributes::key(right.attributes),
            right_rest,
        );
        lemma_text(left.name, right.name, g, h);
        lemma_items::<String>(left.sort_variables, right.sort_variables, 0, e, f);
        lemma_sorts(left.argument_sorts, right.argument_sorts, 0, c, d);
        lemma_sort(left.result_sort, right.result_sort, a, b);
        SymbolAttributes::lemma_decodes(left.attributes, right.attributes, left_rest, right_rest);
        assert(left.sort_variables =~= right.sort_variables);
        assert(left.argument_sorts =~= right.argument_sorts);
    }
}

// ---------------------------------------------------------------------------------------------
// Terms
// ---------------------------------------------------------------------------------------------
/// Whether two terms differ in their children at most.
pub open spec fn same_head(left: TermV, right: TermV) -> bool {
    match (left, right) {
        (TermV::And(_, _), TermV::And(_, _)) => true,
        (
            TermV::Application { symbol: a, sort_arguments: c, .. },
            TermV::Application { symbol: b, sort_arguments: d, .. },
        ) => a == b && c == d,
        (TermV::DomainValue { .. }, TermV::DomainValue { .. }) => left == right,
        (TermV::Variable(_), TermV::Variable(_)) => left == right,
        (
            TermV::Injection { source: a, target: c, .. },
            TermV::Injection { source: b, target: d, .. },
        ) => a == b && c == d,
        (
            TermV::KMap { definition: a, rest: c, .. },
            TermV::KMap { definition: b, rest: d, .. },
        ) => a == b && (c is Some == d is Some),
        (
            TermV::KList { definition: a, heads: g, rest: c, .. },
            TermV::KList { definition: b, heads: h, rest: d, .. },
        ) => a == b && (c is Some == d is Some) && g.len() == h.len(),
        (
            TermV::KSet { definition: a, rest: c, .. },
            TermV::KSet { definition: b, rest: d, .. },
        ) => a == b && (c is Some == d is Some),
        _ => false,
    }
}

/// What the first number of a key tells of a term.
pub open spec fn head_number(term: TermV) -> u32 {
    match term {
        TermV::And(..) => 1,
        TermV::Application { .. } => 2,
        TermV::DomainValue { .. } => 3,
        TermV::Variable(_) => 4,
        TermV::Injection { .. } => 5,
        TermV::KMap { .. } => 6,
        TermV::KList { .. } => 7,
        TermV::KSet { .. } => 8,
    }
}

/// The key of a head behind its first number and in front of a rest, part by part.
spec fn head_parts(term: TermV, rest: Seq<u32>) -> Seq<u32> {
    match term {
        TermV::And(..) => rest,
        TermV::Application { symbol, sort_arguments, .. } => symbol_key(symbol) + (sort_keys(
            sort_arguments,
            0,
        ) + rest),
        TermV::DomainValue { sort, value } => sort_key(sort) + (text_key(value) + rest),
        TermV::Variable(variable) => variable_key(variable) + rest,
        TermV::Injection { source, target, .. } => sort_key(source) + (sort_key(target) + rest),
        TermV::KMap { definition, rest: opaque, .. } => collection_key(definition) + (rest_key(
            opaque,
        ) + rest),
        TermV::KList { definition, heads, rest: opaque, .. } => collection_key(definition) + (
        rest_key(opaque) + (ones(heads.len()) + rest)),
        TermV::KSet { definition, rest: opaque, .. } => collection_key(definition) + (rest_key(
            opaque,
        ) + rest),
    }
}

proof fn lemma_head_parts(term: TermV, rest: Seq<u32>)
    ensures
        (head_key(term) + rest)[0] == head_number(term),
        (head_key(term) + rest).skip(1) == head_parts(term, rest),
{
    match term {
        TermV::And(..) => {
            assert((head_key(term) + rest).skip(1) =~= rest);
        },
        TermV::Application { symbol, sort_arguments, .. } => {
            lemma_parts(2, symbol_key(symbol), sort_keys(sort_arguments, 0), rest);
        },
        TermV::DomainValue { sort, value } => {
            lemma_parts(3, sort_key(sort), text_key(value), rest);
        },
        TermV::Variable(variable) => {
            lemma_part(4, variable_key(variable), rest);
        },
        TermV::Injection { source, target, .. } => {
            lemma_parts(5, sort_key(source), sort_key(target), rest);
        },
        TermV::KMap { definition, rest: opaque, .. } => {
            lemma_parts(6, collection_key(definition), rest_key(opaque), rest);
        },
        TermV::KList { definition, heads, rest: opaque, .. } => {
            lemma_more_parts(
                7,
                collection_key(definition),
                rest_key(opaque),
                ones(heads.len()),
                rest,
            );
        },
        TermV::KSet { definition, rest: opaque, .. } => {
            lemma_parts(8, collection_key(definition), rest_key(opaque), rest);
        },
    }
}

proof fn lemma_rest(
    left: Option<Box<TermV>>,
    right: Option<Box<TermV>>,
    left_rest: Seq<u32>,
    right_rest: Seq<u32>,
)
    requires
        rest_key(left) + left_rest == rest_key(right) + right_rest,
    ensures
        left is Some == right is Some,
        left_rest == right_rest,
{
    let all = rest_key(left) + left_rest;
    let other = rest_key(right) + right_rest;
    assert(all[0] == rest_key(left)[0]);
    assert(other[0] == rest_key(right)[0]);
    assert(left_rest =~= all.skip(1));
    assert(right_rest =~= other.skip(1));
}

#[verifier::spinoff_prover]
proof fn lemma_head(left: TermV, right: TermV, left_rest: Seq<u32>, right_rest: Seq<u32>)
    requires
        head_key(left) + left_rest == head_key(right) + right_rest,
    ensures
        same_head(left, right),
        left_rest == right_rest,
{
    lemma_head_parts(left, left_rest);
    lemma_head_parts(right, right_rest);
    match (left, right) {
        (
            TermV::Application { symbol: a, sort_arguments: c, .. },
            TermV::Application { symbol: b, sort_arguments: d, .. },
        ) => {
            Symbol::lemma_decodes(a, b, sort_keys(c, 0) + left_rest, sort_keys(d, 0) + right_rest);
            lemma_sorts(c, d, 0, left_rest, right_rest);
            assert(c =~= d);
        },
        (
            TermV::DomainValue { sort: a, value: c },
            TermV::DomainValue { sort: b, value: d },
        ) => {
            lemma_sort(a, b, text_key(c) + left_rest, text_key(d) + right_rest);
            lemma_text(c, d, left_rest, right_rest);
        },
        (TermV::Variable(a), TermV::Variable(b)) => {
            lemma_variable(a, b, left_rest, right_rest);
        },
        (
            TermV::Injection { source: a, target: c, .. },
            TermV::Injection { source: b, target: d, .. },
        ) => {
            lemma_sort(a, b, sort_key(c) + left_rest, sort_key(d) + right_rest);
            lemma_sort(c, d, left_rest, right_rest);
        },
        (
            TermV::KMap { definition: a, rest: c, .. },
            TermV::KMap { definition: b, rest: d, .. },
        ) | (
            TermV::KSet { definition: a, rest: c, .. },
            TermV::KSet { definition: b, rest: d, .. },
        ) => {
            CollectionDefinition::lemma_decodes(
                a,
                b,
                rest_key(c) + left_rest,
                rest_key(d) + right_rest,
            );
            lemma_rest(c, d, left_rest, right_rest);
        },
        (
            TermV::KList { definition: a, heads: g, rest: c, .. },
            TermV::KList { definition: b, heads: h, rest: d, .. },
        ) => {
            let last = ones(g.len()) + left_rest;
            let other_last = ones(h.len()) + right_rest;
            CollectionDefinition::lemma_decodes(a, b, rest_key(c) + last, rest_key(d) + other_last);
            lemma_rest(c, d, last, other_last);
            lemma_ones(g.len(), h.len(), left_rest, right_rest);
        },
        _ => {},
    }
}

/// The key of a term tells where it ends, and the term.
pub proof fn lemma_term(
    left: TermV,
    right: TermV,
    left_rest: Seq<u32>,
    right_rest: Seq<u32>,
)
    requires
        term_key(left) + left_rest == term_key(right) + right_rest,
    ensures
        left == right,
        left_rest == right_rest,
    decreases left, 1int, 0int,
{
    let tail = child_keys(left, 0) + left_rest;
    let other_tail = child_keys(right, 0) + right_rest;
    assert(term_key(left) + left_rest =~= head_key(left) + tail);
    assert(term_key(right) + right_rest =~= head_key(right) + other_tail);
    lemma_head(left, right, tail, other_tail);
    lemma_children(left, right, 0, left_rest, right_rest);
    lemma_same(left, right);
}

proof fn lemma_children(
    left: TermV,
    right: TermV,
    from: int,
    left_rest: Seq<u32>,
    right_rest: Seq<u32>,
)
    requires
        0 <= from <= children(left).len(),
        from <= children(right).len(),
        child_keys(left, from) + left_rest == child_keys(right, from) + right_rest,
    ensures
        children(left).len() == children(right).len(),
        forall|i: int| from <= i < children(left).len() ==> children(left)[i] == children(right)[i],
        left_rest == right_rest,
    decreases left, 0int, children(left).len() - from,
{
    let all = child_keys(left, from) + left_rest;
    let other = child_keys(right, from) + right_rest;
    assert(all[0] == other[0]);
    if from < children(left).len() {
        let child = children(left)[from];
        assert(head_key(child)[0] != 0);
        assert(term_key(child)[0] == head_key(child)[0]);
        assert(all[0] == term_key(child)[0]);
    }
    if from < children(right).len() {
        let child = children(right)[from];
        assert(head_key(child)[0] != 0);
        assert(term_key(child)[0] == head_key(child)[0]);
        assert(other[0] == term_key(child)[0]);
    }
    if from < children(left).len() && from < children(right).len() {
        let tail = child_keys(left, from + 1) + left_rest;
        let other_tail = child_keys(right, from + 1) + right_rest;
        assert(all =~= term_key(children(left)[from]) + tail);
        assert(other =~= term_key(children(right)[from]) + other_tail);
        lemma_child_smaller(left, from);
        lemma_term(children(left)[from], children(right)[from], tail, other_tail);
        lemma_children(left, right, from + 1, left_rest, right_rest);
    } else {
        assert(left_rest =~= all.skip(1));
        assert(right_rest =~= other.skip(1));
    }
}

#[verifier::spinoff_prover]
proof fn lemma_same(left: TermV, right: TermV)
    requires
        same_head(left, right),
        children(left).len() == children(right).len(),
        forall|i: int| 0 <= i < children(left).len() ==> children(left)[i] == children(right)[i],
    ensures
        left == right,
{
    reveal(children);
    let a = children(left);
    let b = children(right);
    assert(a =~= b);
    match (left, right) {
        (TermV::And(..), TermV::And(..)) => {
            assert(a[0] == b[0] && a[1] == b[1]);
        },
        (TermV::Injection { .. }, TermV::Injection { .. }) => {
            assert(a[0] == b[0]);
        },
        (
            TermV::KMap { entries, rest, .. },
            TermV::KMap { entries: other_entries, rest: other_rest, .. },
        ) => {
            assert(entries.len() == other_entries.len());
            assert forall|i: int| 0 <= i < entries.len() implies entries[i] == other_entries[i] by {
                assert(a[2 * i] == entries[i].0 && a[2 * i + 1] == entries[i].1);
                assert(b[2 * i] == other_entries[i].0 && b[2 * i + 1] == other_entries[i].1);
            }
            assert(entries =~= other_entries);
            if rest is Some {
                assert(a[2 * entries.len() as int] == *rest->0);
                assert(b[2 * entries.len() as int] == *other_rest->0);
            }
        },
        (
            TermV::KList { heads, rest, tails, .. },
            TermV::KList { heads: other_heads, rest: other_rest, tails: other_tails, .. },
        ) => {
            let start = (heads.len() + rest_seq(rest).len()) as int;
            assert forall|i: int| 0 <= i < heads.len() implies heads[i] == other_heads[i] by {
                assert(a[i] == heads[i] && b[i] == other_heads[i]);
            }
            assert(heads =~= other_heads);
            if rest is Some {
                assert(a[heads.len() as int] == *rest->0);
                assert(b[heads.len() as int] == *other_rest->0);
            }
            assert forall|i: int| 0 <= i < tails.len() implies tails[i] == other_tails[i] by {
                assert(a[start + i] == tails[i] && b[start + i] == other_tails[i]);
            }
            assert(tails =~= other_tails);
        },
        (
            TermV::KSet { elements, rest, .. },
            TermV::KSet { elements: other_elements, rest: other_rest, .. },
        ) => {
            assert forall|i: int| 0 <= i < elements.len() implies elements[i]
                == other_elements[i] by {
                assert(a[i] == elements[i] && b[i] == other_elements[i]);
            }
            assert(elements =~= other_elements);
            if rest is Some {
                assert(a[elements.len() as int] == *rest->0);
                assert(b[elements.len() as int] == *other_rest->0);
            }
        },
        _ => {},
    }
}

} // verus!
