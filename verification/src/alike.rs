//! Terms that are equal up to injections, overloads, the attributes of symbols and conjunctions, in
//! collections up to their normal form.

use vstd::prelude::*;
use crate::construct::{list_term, map_term, set_term};
use crate::sorts::OverloadGraphV;
use crate::term::{CollectionDefinitionV, TermV};

verus! {

/// Whether two lists are the given ones.
pub open spec fn both_lists(
    left: TermV,
    right: TermV,
    definition: CollectionDefinitionV,
    heads: Seq<TermV>,
    rest: Option<Box<TermV>>,
    tails: Seq<TermV>,
    other_heads: Seq<TermV>,
    other_rest: Option<Box<TermV>>,
    other_tails: Seq<TermV>,
) -> bool {
    left == list_term(definition, heads, rest, tails) && right == list_term(
        definition,
        other_heads,
        other_rest,
        other_tails,
    )
}

/// Whether two sets are the given ones.
pub open spec fn both_sets(
    left: TermV,
    right: TermV,
    definition: CollectionDefinitionV,
    elements: Seq<TermV>,
    rest: Option<Box<TermV>>,
    other_elements: Seq<TermV>,
    other_rest: Option<Box<TermV>>,
) -> bool {
    left == set_term(definition, elements, rest) && right == set_term(
        definition,
        other_elements,
        other_rest,
    )
}

/// Whether two maps are the given ones.
pub open spec fn both_maps(
    left: TermV,
    right: TermV,
    definition: CollectionDefinitionV,
    entries: Seq<(TermV, TermV)>,
    rest: Option<Box<TermV>>,
    other_entries: Seq<(TermV, TermV)>,
    other_rest: Option<Box<TermV>>,
) -> bool {
    left == map_term(definition, entries, rest) && right == map_term(
        definition,
        other_entries,
        other_rest,
    )
}

/// Whether the symbol `upper` overloads `lower`.
pub open spec fn overloads(graph: OverloadGraphV, upper: Seq<char>, lower: Seq<char>) -> bool {
    exists|i: int| 0 <= i < graph.len() && (#[trigger] graph[i]).0 == upper && graph[i].1.contains(
        lower,
    )
}

/// Whether `other` is `term` or an injection of it.
pub open spec fn injection_of(term: TermV, other: TermV) -> bool {
    other == term || (other is Injection && *other->Injection_term == term)
}

/// The term without an injection around it.
pub open spec fn without_injection(term: TermV) -> TermV {
    if term is Injection {
        *term->Injection_term
    } else {
        term
    }
}

/// Whether `other` is the application `term` of a symbol as an application of one that overloads
/// it, where arguments and the whole may be injected.
pub open spec fn raised(graph: OverloadGraphV, term: TermV, other: TermV) -> bool {
    let lower = without_injection(term);
    let upper = without_injection(other);
    &&& lower is Application && upper is Application
    &&& (lower->Application_symbol.name == upper->Application_symbol.name
        && lower->Application_sort_arguments == upper->Application_sort_arguments) || overloads(
        graph,
        upper->Application_symbol.name,
        lower->Application_symbol.name,
    )
    &&& lower->Application_arguments.len() == upper->Application_arguments.len()
    &&& forall|i: int|
        0 <= i < lower->Application_arguments.len() ==> injection_of(
            #[trigger] lower->Application_arguments[i],
            upper->Application_arguments[i],
        )
}

/// Whether two terms are `left` and `right` with symbols that overload theirs.
pub open spec fn both_raised(
    graph: OverloadGraphV,
    left: TermV,
    right: TermV,
    other_left: TermV,
    other_right: TermV,
) -> bool {
    raised(graph, left, other_left) && raised(graph, right, other_right)
}

/// Whether two terms are alike, as `depth` levels of them show.
///
/// Equal terms are. An injection is alike to what its term is alike to, and a conjunction to what
/// both of its parts are alike to. Applications of symbols of the same name are alike where their
/// arguments are, and applications of overloaded symbols where they are with a symbol that
/// overloads both. Collections of the same definition are alike where they are the normal forms of
/// collections with parts that are alike one by one.
pub open spec fn alike_within(graph: OverloadGraphV, left: TermV, right: TermV, depth: nat) -> bool
    decreases depth, 0int,
{
    ||| left == right
    ||| depth > 0 && {
        let less = (depth - 1) as nat;
        ||| left is And && alike_within(graph, *left->And_0, right, less) && alike_within(
            graph,
            *left->And_1,
            right,
            less,
        )
        ||| right is And && alike_within(graph, left, *right->And_0, less) && alike_within(
            graph,
            left,
            *right->And_1,
            less,
        )
        ||| left is Injection && alike_within(graph, *left->Injection_term, right, less)
        ||| right is Injection && alike_within(graph, left, *right->Injection_term, less)
        ||| left is Application && right is Application && left->Application_symbol.name
            == right->Application_symbol.name && left->Application_sort_arguments
            == right->Application_sort_arguments && all_within(
            graph,
            left->Application_arguments,
            right->Application_arguments,
            less,
        )
        ||| lists_within(graph, left, right, less)
        ||| sets_within(graph, left, right, less)
        ||| maps_within(graph, left, right, less)
        ||| raised_within(graph, left, right, less)
    }
}

/// Whether two terms are alike with symbols that overload theirs.
pub open spec fn raised_within(
    graph: OverloadGraphV,
    left: TermV,
    right: TermV,
    depth: nat,
) -> bool
    decreases depth, 2int,
{
    exists|other_left: TermV, other_right: TermV| #[trigger]
        both_raised(graph, left, right, other_left, other_right) && alike_within(
            graph,
            other_left,
            other_right,
            depth,
        )
}

/// Whether the terms of two sequences are alike one by one.
pub open spec fn all_within(
    graph: OverloadGraphV,
    left: Seq<TermV>,
    right: Seq<TermV>,
    depth: nat,
) -> bool
    decreases depth, 1int,
{
    left.len() == right.len() && forall|i: int|
        0 <= i < left.len() ==> alike_within(graph, #[trigger] left[i], right[i], depth)
}

/// Whether the entries of two maps are alike one by one.
pub open spec fn entries_within(
    graph: OverloadGraphV,
    left: Seq<(TermV, TermV)>,
    right: Seq<(TermV, TermV)>,
    depth: nat,
) -> bool
    decreases depth, 1int,
{
    left.len() == right.len() && forall|i: int|
        0 <= i < left.len() ==> alike_within(graph, (#[trigger] left[i]).0, right[i].0, depth)
            && alike_within(graph, left[i].1, right[i].1, depth)
}

/// Whether the rests of two collections are alike.
pub open spec fn rests_within(
    graph: OverloadGraphV,
    left: Option<Box<TermV>>,
    right: Option<Box<TermV>>,
    depth: nat,
) -> bool
    decreases depth, 1int,
{
    match (left, right) {
        (Some(left), Some(right)) => alike_within(graph, *left, *right, depth),
        (None, None) => true,
        _ => false,
    }
}

/// Whether two terms are lists with parts that are alike.
pub open spec fn lists_within(graph: OverloadGraphV, left: TermV, right: TermV, depth: nat) -> bool
    decreases depth, 2int,
{
    exists|
        definition: CollectionDefinitionV,
        heads: Seq<TermV>,
        rest: Option<Box<TermV>>,
        tails: Seq<TermV>,
        other_heads: Seq<TermV>,
        other_rest: Option<Box<TermV>>,
        other_tails: Seq<TermV>,
    | #[trigger]
        both_lists(
            left,
            right,
            definition,
            heads,
            rest,
            tails,
            other_heads,
            other_rest,
            other_tails,
        ) && all_within(graph, heads, other_heads, depth) && rests_within(graph, rest, other_rest, depth)
            && all_within(graph, tails, other_tails, depth)
}

/// Whether two terms are sets with parts that are alike.
pub open spec fn sets_within(graph: OverloadGraphV, left: TermV, right: TermV, depth: nat) -> bool
    decreases depth, 2int,
{
    exists|
        definition: CollectionDefinitionV,
        elements: Seq<TermV>,
        rest: Option<Box<TermV>>,
        other_elements: Seq<TermV>,
        other_rest: Option<Box<TermV>>,
    | #[trigger]
        both_sets(left, right, definition, elements, rest, other_elements, other_rest)
            && all_within(graph, elements, other_elements, depth) && rests_within(graph, rest, other_rest, depth)
}

/// Whether two terms are maps with parts that are alike.
pub open spec fn maps_within(graph: OverloadGraphV, left: TermV, right: TermV, depth: nat) -> bool
    decreases depth, 2int,
{
    exists|
        definition: CollectionDefinitionV,
        entries: Seq<(TermV, TermV)>,
        rest: Option<Box<TermV>>,
        other_entries: Seq<(TermV, TermV)>,
        other_rest: Option<Box<TermV>>,
    | #[trigger]
        both_maps(left, right, definition, entries, rest, other_entries, other_rest)
            && entries_within(graph, entries, other_entries, depth) && rests_within(
            graph,
            rest,
            other_rest,
            depth,
        )
}

/// Whether two terms are alike.
pub open spec fn alike(graph: OverloadGraphV, left: TermV, right: TermV) -> bool {
    exists|depth: nat| #[trigger] alike_within(graph, left, right, depth)
}

/// Whether the terms of two sequences are alike one by one.
pub open spec fn all_alike(graph: OverloadGraphV, left: Seq<TermV>, right: Seq<TermV>) -> bool {
    left.len() == right.len() && forall|i: int|
        0 <= i < left.len() ==> alike(graph, #[trigger] left[i], right[i])
}

/// Whether the entries of two maps are alike one by one.
pub open spec fn entries_alike(
    graph: OverloadGraphV,
    left: Seq<(TermV, TermV)>,
    right: Seq<(TermV, TermV)>,
) -> bool {
    left.len() == right.len() && forall|i: int|
        0 <= i < left.len() ==> alike(graph, (#[trigger] left[i]).0, right[i].0) && alike(
            graph,
            left[i].1,
            right[i].1,
        )
}

/// Whether the rests of two collections are alike.
pub open spec fn rests_alike(
    graph: OverloadGraphV,
    left: Option<Box<TermV>>,
    right: Option<Box<TermV>>,
) -> bool {
    match (left, right) {
        (Some(left), Some(right)) => alike(graph, *left, *right),
        (None, None) => true,
        _ => false,
    }
}

// ---------------------------------------------------------------------------------------------
// Levels
// ---------------------------------------------------------------------------------------------
proof fn lemma_all_deeper(
    graph: OverloadGraphV,
    left: Seq<TermV>,
    right: Seq<TermV>,
    depth: nat,
    more: nat,
)
    requires
        depth <= more,
        all_within(graph, left, right, depth),
    ensures
        all_within(graph, left, right, more),
    decreases depth, 1int,
{
    assert forall|i: int| 0 <= i < left.len() implies alike_within(
        graph,
        #[trigger] left[i],
        right[i],
        more,
    ) by {
        lemma_deeper(graph, left[i], right[i], depth, more);
    }
}

proof fn lemma_entries_deeper(
    graph: OverloadGraphV,
    left: Seq<(TermV, TermV)>,
    right: Seq<(TermV, TermV)>,
    depth: nat,
    more: nat,
)
    requires
        depth <= more,
        entries_within(graph, left, right, depth),
    ensures
        entries_within(graph, left, right, more),
    decreases depth, 1int,
{
    assert forall|i: int| 0 <= i < left.len() implies alike_within(
        graph,
        (#[trigger] left[i]).0,
        right[i].0,
        more,
    ) && alike_within(graph, left[i].1, right[i].1, more) by {
        lemma_deeper(graph, left[i].0, right[i].0, depth, more);
        lemma_deeper(graph, left[i].1, right[i].1, depth, more);
    }
}

proof fn lemma_rests_deeper(
    graph: OverloadGraphV,
    left: Option<Box<TermV>>,
    right: Option<Box<TermV>>,
    depth: nat,
    more: nat,
)
    requires
        depth <= more,
        rests_within(graph, left, right, depth),
    ensures
        rests_within(graph, left, right, more),
    decreases depth, 1int,
{
    if let (Some(left), Some(right)) = (left, right) {
        lemma_deeper(graph, *left, *right, depth, more);
    }
}

proof fn lemma_deeper(graph: OverloadGraphV, left: TermV, right: TermV, depth: nat, more: nat)
    requires
        depth <= more,
        alike_within(graph, left, right, depth),
    ensures
        alike_within(graph, left, right, more),
    decreases depth, 0int,
{
    if left != right {
        let less = (depth - 1) as nat;
        let next = (more - 1) as nat;
        if left is And && alike_within(graph, *left->And_0, right, less) && alike_within(
            graph,
            *left->And_1,
            right,
            less,
        ) {
            lemma_deeper(graph, *left->And_0, right, less, next);
            lemma_deeper(graph, *left->And_1, right, less, next);
        } else if right is And && alike_within(graph, left, *right->And_0, less) && alike_within(
            graph,
            left,
            *right->And_1,
            less,
        ) {
            lemma_deeper(graph, left, *right->And_0, less, next);
            lemma_deeper(graph, left, *right->And_1, less, next);
        } else if left is Injection && alike_within(graph, *left->Injection_term, right, less) {
            lemma_deeper(graph, *left->Injection_term, right, less, next);
        } else if right is Injection && alike_within(graph, left, *right->Injection_term, less) {
            lemma_deeper(graph, left, *right->Injection_term, less, next);
        } else if lists_within(graph, left, right, less) {
            let (definition, heads, rest, tails, other_heads, other_rest, other_tails) = choose|
                definition: CollectionDefinitionV,
                heads: Seq<TermV>,
                rest: Option<Box<TermV>>,
                tails: Seq<TermV>,
                other_heads: Seq<TermV>,
                other_rest: Option<Box<TermV>>,
                other_tails: Seq<TermV>,
            | #[trigger]
                both_lists(
                    left,
                    right,
                    definition,
                    heads,
                    rest,
                    tails,
                    other_heads,
                    other_rest,
                    other_tails,
                ) && all_within(graph, heads, other_heads, less) && rests_within(graph, rest, other_rest, less)
                    && all_within(graph, tails, other_tails, less);
            lemma_all_deeper(graph, heads, other_heads, less, next);
            lemma_rests_deeper(graph, rest, other_rest, less, next);
            lemma_all_deeper(graph, tails, other_tails, less, next);
            assert(lists_within(graph, left, right, next));
        } else if sets_within(graph, left, right, less) {
            let (definition, elements, rest, other_elements, other_rest) = choose|
                definition: CollectionDefinitionV,
                elements: Seq<TermV>,
                rest: Option<Box<TermV>>,
                other_elements: Seq<TermV>,
                other_rest: Option<Box<TermV>>,
            | #[trigger]
                both_sets(left, right, definition, elements, rest, other_elements, other_rest)
                    && all_within(graph, elements, other_elements, less) && rests_within(
                    graph,
                    rest,
                    other_rest,
                    less,
                );
            lemma_all_deeper(graph, elements, other_elements, less, next);
            lemma_rests_deeper(graph, rest, other_rest, less, next);
            assert(sets_within(graph, left, right, next));
        } else if maps_within(graph, left, right, less) {
            let (definition, entries, rest, other_entries, other_rest) = choose|
                definition: CollectionDefinitionV,
                entries: Seq<(TermV, TermV)>,
                rest: Option<Box<TermV>>,
                other_entries: Seq<(TermV, TermV)>,
                other_rest: Option<Box<TermV>>,
            | #[trigger]
                both_maps(left, right, definition, entries, rest, other_entries, other_rest)
                    && entries_within(graph, entries, other_entries, less) && rests_within(
                    graph,
                    rest,
                    other_rest,
                    less,
                );
            lemma_entries_deeper(graph, entries, other_entries, less, next);
            lemma_rests_deeper(graph, rest, other_rest, less, next);
            assert(maps_within(graph, left, right, next));
        } else if raised_within(graph, left, right, less) {
            let (other_left, other_right) = choose|other_left: TermV, other_right: TermV| #[trigger]
                both_raised(graph, left, right, other_left, other_right) && alike_within(
                    graph,
                    other_left,
                    other_right,
                    less,
                );
            lemma_deeper(graph, other_left, other_right, less, next);
            assert(raised_within(graph, left, right, next));
        } else {
            lemma_all_deeper(
                graph,
                left->Application_arguments,
                right->Application_arguments,
                less,
                next,
            );
        }
    }
}

/// Enough levels for all pairs from `from` on.
proof fn lemma_level(
    graph: OverloadGraphV,
    left: Seq<TermV>,
    right: Seq<TermV>,
    from: int,
) -> (depth: nat)
    requires
        left.len() == right.len(),
        0 <= from <= left.len(),
        forall|i: int| from <= i < left.len() ==> alike(graph, #[trigger] left[i], right[i]),
    ensures
        forall|i: int|
            from <= i < left.len() ==> alike_within(graph, #[trigger] left[i], right[i], depth),
    decreases left.len() - from,
{
    if from < left.len() {
        let rest = lemma_level(graph, left, right, from + 1);
        assert(alike(graph, left[from], right[from]));
        let own = choose|depth: nat| #[trigger] alike_within(graph, left[from], right[from], depth);
        let depth = rest + own;
        assert forall|i: int| from <= i < left.len() implies alike_within(
            graph,
            #[trigger] left[i],
            right[i],
            depth,
        ) by {
            if i == from {
                lemma_deeper(graph, left[i], right[i], own, depth);
            } else {
                lemma_deeper(graph, left[i], right[i], rest, depth);
            }
        }
        depth
    } else {
        0
    }
}

proof fn lemma_all_level(graph: OverloadGraphV, left: Seq<TermV>, right: Seq<TermV>) -> (depth: nat)
    requires
        all_alike(graph, left, right),
    ensures
        all_within(graph, left, right, depth),
{
    lemma_level(graph, left, right, 0)
}

proof fn lemma_rests_level(
    graph: OverloadGraphV,
    left: Option<Box<TermV>>,
    right: Option<Box<TermV>>,
) -> (depth: nat)
    requires
        rests_alike(graph, left, right),
    ensures
        rests_within(graph, left, right, depth),
{
    match (left, right) {
        (Some(left), Some(right)) => choose|depth: nat| #[trigger]
            alike_within(graph, *left, *right, depth),
        _ => 0,
    }
}

// ---------------------------------------------------------------------------------------------
// Ways to be alike
// ---------------------------------------------------------------------------------------------
/// Equal terms are alike.
pub proof fn lemma_alike_equal(graph: OverloadGraphV, term: TermV)
    ensures
        alike(graph, term, term),
{
    assert(alike_within(graph, term, term, 0));
}

/// A conjunction is alike to what both of its parts are alike to.
pub proof fn lemma_alike_conjunction(graph: OverloadGraphV, left: TermV, right: TermV)
    ensures
        left is And && alike(graph, *left->And_0, right) && alike(graph, *left->And_1, right) ==> alike(
            graph,
            left,
            right,
        ),
        right is And && alike(graph, left, *right->And_0) && alike(graph, left, *right->And_1) ==> alike(
            graph,
            left,
            right,
        ),
{
    if left is And && alike(graph, *left->And_0, right) && alike(graph, *left->And_1, right) {
        let first = choose|depth: nat| #[trigger] alike_within(graph, *left->And_0, right, depth);
        let second = choose|depth: nat| #[trigger] alike_within(graph, *left->And_1, right, depth);
        lemma_deeper(graph, *left->And_0, right, first, first + second);
        lemma_deeper(graph, *left->And_1, right, second, first + second);
        assert(alike_within(graph, left, right, first + second + 1));
    }
    if right is And && alike(graph, left, *right->And_0) && alike(graph, left, *right->And_1) {
        let first = choose|depth: nat| #[trigger] alike_within(graph, left, *right->And_0, depth);
        let second = choose|depth: nat| #[trigger] alike_within(graph, left, *right->And_1, depth);
        lemma_deeper(graph, left, *right->And_0, first, first + second);
        lemma_deeper(graph, left, *right->And_1, second, first + second);
        assert(alike_within(graph, left, right, first + second + 1));
    }
}

/// An injection is alike to what its term is alike to.
pub proof fn lemma_alike_injection(graph: OverloadGraphV, left: TermV, right: TermV)
    ensures
        left is Injection && alike(graph, *left->Injection_term, right) ==> alike(graph, left, right),
        right is Injection && alike(graph, left, *right->Injection_term) ==> alike(graph, left, right),
{
    if left is Injection && alike(graph, *left->Injection_term, right) {
        let depth = choose|depth: nat| #[trigger]
            alike_within(graph, *left->Injection_term, right, depth);
        assert(alike_within(graph, left, right, depth + 1));
    }
    if right is Injection && alike(graph, left, *right->Injection_term) {
        let depth = choose|depth: nat| #[trigger]
            alike_within(graph, left, *right->Injection_term, depth);
        assert(alike_within(graph, left, right, depth + 1));
    }
}

/// Applications are alike where their arguments are.
pub proof fn lemma_alike_application(graph: OverloadGraphV, left: TermV, right: TermV)
    requires
        left is Application,
        right is Application,
        left->Application_symbol.name == right->Application_symbol.name,
        left->Application_sort_arguments == right->Application_sort_arguments,
        all_alike(graph, left->Application_arguments, right->Application_arguments),
    ensures
        alike(graph, left, right),
{
    let depth = lemma_all_level(graph, left->Application_arguments, right->Application_arguments);
    assert(alike_within(graph, left, right, depth + 1));
}

/// Lists are alike where their parts are.
pub proof fn lemma_alike_list(
    graph: OverloadGraphV,
    definition: CollectionDefinitionV,
    heads: Seq<TermV>,
    rest: Option<Box<TermV>>,
    tails: Seq<TermV>,
    other_heads: Seq<TermV>,
    other_rest: Option<Box<TermV>>,
    other_tails: Seq<TermV>,
)
    requires
        all_alike(graph, heads, other_heads),
        rests_alike(graph, rest, other_rest),
        all_alike(graph, tails, other_tails),
    ensures
        alike(
            graph,
            list_term(definition, heads, rest, tails),
            list_term(definition, other_heads, other_rest, other_tails),
        ),
{
    let left = list_term(definition, heads, rest, tails);
    let right = list_term(definition, other_heads, other_rest, other_tails);
    let first = lemma_all_level(graph, heads, other_heads);
    let second = lemma_rests_level(graph, rest, other_rest);
    let third = lemma_all_level(graph, tails, other_tails);
    let depth = first + second + third;
    lemma_all_deeper(graph, heads, other_heads, first, depth);
    lemma_rests_deeper(graph, rest, other_rest, second, depth);
    lemma_all_deeper(graph, tails, other_tails, third, depth);
    assert(both_lists(
        left,
        right,
        definition,
        heads,
        rest,
        tails,
        other_heads,
        other_rest,
        other_tails,
    ));
    assert(lists_within(graph, left, right, depth));
    assert((depth + 1 - 1) as nat == depth);
    assert(alike_within(graph, left, right, depth + 1));
}

/// Sets are alike where their parts are.
pub proof fn lemma_alike_set(
    graph: OverloadGraphV,
    definition: CollectionDefinitionV,
    elements: Seq<TermV>,
    rest: Option<Box<TermV>>,
    other_elements: Seq<TermV>,
    other_rest: Option<Box<TermV>>,
)
    requires
        all_alike(graph, elements, other_elements),
        rests_alike(graph, rest, other_rest),
    ensures
        alike(
            graph,
            set_term(definition, elements, rest),
            set_term(definition, other_elements, other_rest),
        ),
{
    let left = set_term(definition, elements, rest);
    let right = set_term(definition, other_elements, other_rest);
    let first = lemma_all_level(graph, elements, other_elements);
    let second = lemma_rests_level(graph, rest, other_rest);
    let depth = first + second;
    lemma_all_deeper(graph, elements, other_elements, first, depth);
    lemma_rests_deeper(graph, rest, other_rest, second, depth);
    assert(both_sets(left, right, definition, elements, rest, other_elements, other_rest));
    assert(sets_within(graph, left, right, depth));
    assert((depth + 1 - 1) as nat == depth);
    assert(alike_within(graph, left, right, depth + 1));
}

/// Maps are alike where their parts are.
pub proof fn lemma_alike_map(
    graph: OverloadGraphV,
    definition: CollectionDefinitionV,
    entries: Seq<(TermV, TermV)>,
    rest: Option<Box<TermV>>,
    other_entries: Seq<(TermV, TermV)>,
    other_rest: Option<Box<TermV>>,
)
    requires
        entries_alike(graph, entries, other_entries),
        rests_alike(graph, rest, other_rest),
    ensures
        alike(
            graph,
            map_term(definition, entries, rest),
            map_term(definition, other_entries, other_rest),
        ),
{
    let left = map_term(definition, entries, rest);
    let right = map_term(definition, other_entries, other_rest);
    let keys = entries.map(|_i: int, entry: (TermV, TermV)| entry.0);
    let values = entries.map(|_i: int, entry: (TermV, TermV)| entry.1);
    let other_keys = other_entries.map(|_i: int, entry: (TermV, TermV)| entry.0);
    let other_values = other_entries.map(|_i: int, entry: (TermV, TermV)| entry.1);
    assert forall|i: int| 0 <= i < keys.len() implies alike(graph, #[trigger] keys[i], other_keys[i]) by {
        assert(alike(graph, entries[i].0, other_entries[i].0));
    }
    assert forall|i: int| 0 <= i < values.len() implies alike(
        graph,
        #[trigger] values[i],
        other_values[i],
    ) by {
        assert(alike(graph, entries[i].0, other_entries[i].0));
    }
    let first = lemma_all_level(graph, keys, other_keys);
    let second = lemma_all_level(graph, values, other_values);
    let third = lemma_rests_level(graph, rest, other_rest);
    let depth = first + second + third;
    lemma_all_deeper(graph, keys, other_keys, first, depth);
    lemma_all_deeper(graph, values, other_values, second, depth);
    lemma_rests_deeper(graph, rest, other_rest, third, depth);
    assert forall|i: int| 0 <= i < entries.len() implies alike_within(
        graph,
        (#[trigger] entries[i]).0,
        other_entries[i].0,
        depth,
    ) && alike_within(graph, entries[i].1, other_entries[i].1, depth) by {
        assert(alike_within(graph, keys[i], other_keys[i], depth));
        assert(alike_within(graph, values[i], other_values[i], depth));
    }
    assert(both_maps(left, right, definition, entries, rest, other_entries, other_rest));
    assert(maps_within(graph, left, right, depth));
    assert((depth + 1 - 1) as nat == depth);
    assert(alike_within(graph, left, right, depth + 1));
}

/// Applications are alike where they are with symbols that overload theirs.
pub proof fn lemma_alike_raised(
    graph: OverloadGraphV,
    left: TermV,
    right: TermV,
    other_left: TermV,
    other_right: TermV,
)
    requires
        raised(graph, left, other_left),
        raised(graph, right, other_right),
        alike(graph, other_left, other_right),
    ensures
        alike(graph, left, right),
{
    let depth = choose|depth: nat| #[trigger]
        alike_within(graph, other_left, other_right, depth);
    assert(both_raised(graph, left, right, other_left, other_right));
    assert(raised_within(graph, left, right, depth));
    assert((depth + 1 - 1) as nat == depth);
    assert(alike_within(graph, left, right, depth + 1));
}

} // verus!
