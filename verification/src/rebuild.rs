//! Putting collections together again from their children.

use vstd::prelude::*;
use crate::construct::{list_term, map_term, set_term};
use crate::model::{deep, group_deep, Value};
use crate::ops::rest_seq;
use crate::term::{rest_view, CollectionDefinition, Term, TermV};

verus! {

broadcast use group_deep;

/// The first of `kids`, from position `from` on, as the rest of a collection that has one.
pub open spec fn rest_from(rest: Option<Box<TermV>>, kids: Seq<TermV>, from: int) -> Option<
    Box<TermV>,
> {
    match rest {
        Some(_) => Some(Box::new(kids[from])),
        None => None,
    }
}

/// Consecutive pairs of `kids`.
pub open spec fn paired(kids: Seq<TermV>, count: nat) -> Seq<(TermV, TermV)> {
    Seq::new(count, |i: int| (kids[2 * i], kids[2 * i + 1]))
}

/// `term` with its children replaced by `kids`, in normal form.
#[verifier::opaque]
pub open spec fn with_children(term: TermV, kids: Seq<TermV>) -> TermV {
    match term {
        TermV::And(_, _) => TermV::And(Box::new(kids[0]), Box::new(kids[1])),
        TermV::Application { symbol, sort_arguments, .. } => TermV::Application {
            symbol,
            sort_arguments,
            arguments: kids,
        },
        TermV::DomainValue { .. } => term,
        TermV::Variable(_) => term,
        TermV::Injection { source, target, .. } => TermV::Injection {
            source,
            target,
            term: Box::new(kids[0]),
        },
        TermV::KMap { definition, entries, rest } => map_term(
            definition,
            paired(kids, entries.len()),
            rest_from(rest, kids, 2 * entries.len() as int),
        ),
        TermV::KList { definition, heads, rest, tails } => list_term(
            definition,
            kids.take(heads.len() as int),
            rest_from(rest, kids, heads.len() as int),
            kids.skip((heads.len() + rest_seq(rest).len()) as int),
        ),
        TermV::KSet { definition, elements, rest } => set_term(
            definition,
            kids.take(elements.len() as int),
            rest_from(rest, kids, elements.len() as int),
        ),
    }
}

/// Take the first `count` of `kids`.
fn take_first(kids: &mut Vec<Term>, count: usize) -> (result: Vec<Term>)
    requires
        count <= old(kids).len(),
    ensures
        deep(result@) == deep(old(kids)@).take(count as int),
        deep(final(kids)@) == deep(old(kids)@).skip(count as int),
{
    let mut tail = kids.split_off(count);
    std::mem::swap(kids, &mut tail);
    assert(deep(tail@) =~= deep(old(kids)@).take(count as int));
    assert(deep(kids@) =~= deep(old(kids)@).skip(count as int));
    tail
}

fn take_rest(has_rest: bool, kids: &mut Vec<Term>) -> (result: Option<Term>)
    requires
        has_rest ==> old(kids).len() > 0,
    ensures
        has_rest ==> result is Some && (result->0)@ == deep(old(kids)@)[0] && deep(final(kids)@)
            == deep(old(kids)@).skip(1),
        !has_rest ==> result is None && *final(kids) == *old(kids),
{
    if has_rest {
        let first = kids.remove(0);
        assert(deep(kids@) =~= deep(old(kids)@).skip(1));
        Some(first)
    } else {
        None
    }
}

/// Take consecutive pairs off the front of `kids`.
fn take_pairs(kids: &mut Vec<Term>, count: usize) -> (pairs: Vec<(Term, Term)>)
    requires
        2 * count <= old(kids).len(),
    ensures
        deep(pairs@) == paired(deep(old(kids)@), count as nat),
        deep(final(kids)@) == deep(old(kids)@).skip(2 * count as int),
{
    let ghost all = deep(kids@);
    let mut pairs: Vec<(Term, Term)> = Vec::new();
    let mut i: usize = 0;
    assert(all.skip(0) =~= all);
    while i < count
        invariant
            i <= count,
            all.len() >= 2 * count,
            pairs.len() == i,
            kids.len() == all.len() - 2 * i,
            deep(kids@) == all.skip(2 * i),
            forall|j: int|
                0 <= j < i ==> (#[trigger] pairs[j]).0@ == all[2 * j] && pairs[j].1@ == all[2 * j
                    + 1],
        decreases count - i,
    {
        assert(deep(kids@)[0] == all[2 * i]);
        assert(deep(kids@)[1] == all[2 * i + 1]);
        let key = kids.remove(0);
        let value = kids.remove(0);
        assert(deep(kids@) =~= all.skip(2 * (i + 1)));
        pairs.push((key, value));
        i += 1;
    }
    assert(deep(pairs@) =~= paired(all, count as nat));
    pairs
}

pub(crate) fn map_with_children(
    definition: &CollectionDefinition,
    entries: &Vec<(Term, Term)>,
    rest: &Option<Box<Term>>,
    kids: Vec<Term>,
) -> (term: Term)
    requires
        kids.len() == 2 * entries.len() + rest_seq(rest_view(*rest)).len(),
    ensures
        term@ == map_term(
            definition@,
            paired(deep(kids@), entries@.len()),
            rest_from(rest_view(*rest), deep(kids@), 2 * entries@.len() as int),
        ),
{
    let mut kids = kids;
    let pairs = take_pairs(&mut kids, entries.len());
    let rest = take_rest(rest.is_some(), &mut kids);
    Term::map(definition.duplicate(), pairs, rest)
}

pub(crate) fn list_with_children(
    definition: &CollectionDefinition,
    heads: &Vec<Term>,
    rest: &Option<Box<Term>>,
    tails: &Vec<Term>,
    kids: Vec<Term>,
) -> (term: Term)
    requires
        kids.len() == heads.len() + rest_seq(rest_view(*rest)).len() + tails.len(),
    ensures
        term@ == list_term(
            definition@,
            deep(kids@).take(heads@.len() as int),
            rest_from(rest_view(*rest), deep(kids@), heads@.len() as int),
            deep(kids@).skip((heads@.len() + rest_seq(rest_view(*rest)).len()) as int),
        ),
{
    let ghost all = deep(kids@);
    let ghost middle = rest_seq(rest_view(*rest)).len();
    let mut kids = kids;
    let first = take_first(&mut kids, heads.len());
    let rest = take_rest(rest.is_some(), &mut kids);
    assert(deep(kids@) =~= all.skip((heads@.len() + middle) as int));
    Term::list(definition.duplicate(), first, rest, kids)
}

pub(crate) fn set_with_children(
    definition: &CollectionDefinition,
    elements: &Vec<Term>,
    rest: &Option<Box<Term>>,
    kids: Vec<Term>,
) -> (term: Term)
    requires
        kids.len() == elements.len() + rest_seq(rest_view(*rest)).len(),
    ensures
        term@ == set_term(
            definition@,
            deep(kids@).take(elements@.len() as int),
            rest_from(rest_view(*rest), deep(kids@), elements@.len() as int),
        ),
{
    let mut kids = kids;
    let first = take_first(&mut kids, elements.len());
    let rest = take_rest(rest.is_some(), &mut kids);
    Term::set(definition.duplicate(), first, rest)
}

} // verus!
