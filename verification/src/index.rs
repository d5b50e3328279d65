//! A hash index of predicates, by which an equal predicate is found without comparing all.

use rustc_hash::FxHashMap;
use std::hash::Hasher;
use vstd::prelude::*;
use crate::model::{contains, deep, group_deep, Value};
use crate::predicate::{predicate_key, push_predicate_key, Predicate, PredicateV};

verus! {

broadcast use group_deep;

/// The hasher of [`FxHashMap`], which Verus treats as opaque.
#[verifier::external_type_specification]
#[verifier::external_body]
pub struct ExFxBuildHasher(rustc_hash::FxBuildHasher);

/// The Fx hash of one word on top of `seed`: the sum times a constant, rotated to the left, all in
/// the width of the machine's words.
pub open spec fn fx_word(seed: int, word: int, wide: bool) -> int {
    if wide {
        let product = ((seed + word) * 0xf1357aea2e62a9c5) % 0x1_0000_0000_0000_0000;
        (product * 0x400_0000) % 0x1_0000_0000_0000_0000 + product / 0x40_0000_0000
    } else {
        let product = ((seed + word) * 0x93d765dd) % 0x1_0000_0000;
        (product * 0x8000) % 0x1_0000_0000 + product / 0x2_0000
    }
}

/// Whether the machine's words have 64 bits.
pub open spec fn wide_words() -> bool {
    usize::MAX as int == u64::MAX as int
}

/// Hash one word with `rustc_hash::FxHasher`, whose state before is `seed`.
///
/// The hasher adds the word to its state and multiplies by a constant, wrapping around, and its
/// `finish` rotates the state to the left by 26 bits on a 64-bit machine and by 15 bits on a
/// 32-bit one.
#[verifier::external_body]
fn hash_word(seed: usize, word: u32) -> (result: u64)
    ensures
        result == fx_word(seed as int, word as int, wide_words()),
{
    let mut hasher = rustc_hash::FxHasher::with_seed(seed);
    hasher.write_u32(word);
    hasher.finish()
}

/// An empty `rustc_hash::FxHashMap`: its `default` holds no key.
#[verifier::external_body]
fn new_buckets() -> (buckets: FxHashMap<u64, Vec<usize>>)
    ensures
        buckets@.dom() == Set::<u64>::empty(),
{
    FxHashMap::default()
}

/// The value of `key` in a `rustc_hash::FxHashMap`: `get` finds it exactly when the map holds the
/// key.
#[verifier::external_body]
fn bucket<'a>(buckets: &'a FxHashMap<u64, Vec<usize>>, key: u64) -> (result: Option<&'a Vec<usize>>)
    ensures
        match result {
            Some(value) => buckets@.contains_key(key) && *value == buckets@[key],
            None => !buckets@.contains_key(key),
        },
{
    buckets.get(&key)
}

/// Give `key` a value in a `rustc_hash::FxHashMap`: `insert` replaces the value that the key had
/// and leaves the other keys alone.
#[verifier::external_body]
fn set_bucket(buckets: &mut FxHashMap<u64, Vec<usize>>, key: u64, value: Vec<usize>)
    ensures
        final(buckets)@ == old(buckets)@.insert(key, value),
{
    buckets.insert(key, value);
}

/// The hash of the words from `from` on, on top of `seed`.
pub open spec fn words_hash(words: Seq<u32>, seed: usize, from: int) -> usize
    decreases words.len() - from,
{
    if from >= words.len() {
        seed
    } else {
        words_hash(
            words,
            fx_word(seed as int, words[from] as int, wide_words()) as usize,
            from + 1,
        )
    }
}

/// The hash of a predicate.
pub open spec fn predicate_hash(predicate: PredicateV) -> u64 {
    words_hash(predicate_key(predicate), 0, 0) as u64
}

fn hash_predicate(predicate: &Predicate) -> (hash: u64)
    ensures
        hash == predicate_hash(predicate@),
{
    let mut words: Vec<u32> = Vec::new();
    push_predicate_key(predicate, &mut words);
    assert(words@ =~= predicate_key(predicate@));
    let mut hash: usize = 0;
    let mut i: usize = 0;
    while i < words.len()
        invariant
            i <= words.len(),
            words_hash(words@, 0, 0) == words_hash(words@, hash, i as int),
        decreases words.len() - i,
    {
        let next: u64 = hash_word(hash, words[i]);
        hash = #[verifier::truncate] (next as usize);
        i += 1;
    }
    hash as u64
}

/// Predicates in the order in which they were added, and their positions by hash.
pub struct PredicateIndex {
    predicates: Vec<Predicate>,
    positions: FxHashMap<u64, Vec<usize>>,
}

impl View for PredicateIndex {
    type V = Seq<PredicateV>;

    closed spec fn view(&self) -> Seq<PredicateV> {
        deep(self.predicates@)
    }
}

impl PredicateIndex {
    /// Every predicate's position is in the bucket of its hash, and buckets hold positions only.
    pub closed spec fn well_formed(&self) -> bool {
        &&& forall|i: int|
            0 <= i < self.predicates.len() ==> self.positions@.contains_key(
                predicate_hash(#[trigger] self.predicates[i]@),
            ) && self.positions@[predicate_hash(self.predicates[i]@)]@.contains(i as usize)
        &&& forall|hash: u64, k: int|
            self.positions@.contains_key(hash) && 0 <= k < self.positions@[hash]@.len()
                ==> #[trigger] self.positions@[hash]@[k] < self.predicates.len()
    }

    /// An index without predicates.
    pub fn new() -> (index: Self)
        ensures
            index.well_formed(),
            index@ == Seq::<PredicateV>::empty(),
    {
        PredicateIndex { predicates: Vec::new(), positions: new_buckets() }
    }

    /// Whether an equal predicate was added.
    pub fn contains(&self, predicate: &Predicate) -> (found: bool)
        requires
            self.well_formed(),
        ensures
            found == self@.contains(predicate@),
    {
        let hash: u64 = hash_predicate(predicate);
        match bucket(&self.positions, hash) {
            Some(candidates) => {
                let mut i: usize = 0;
                while i < candidates.len()
                    invariant
                        i <= candidates.len(),
                        self.well_formed(),
                        self.positions@.contains_key(hash),
                        *candidates == self.positions@[hash],
                        forall|j: int|
                            0 <= j < i ==> self.predicates[(#[trigger] candidates[j]) as int]@
                                != predicate@,
                    decreases candidates.len() - i,
                {
                    let position: usize = candidates[i];
                    assert(self.positions@[hash]@[i as int] < self.predicates.len());
                    if self.predicates[position].equals(predicate) {
                        assert(self@[position as int] == predicate@);
                        return true;
                    }
                    i += 1;
                }
                proof {
                    if self@.contains(predicate@) {
                        let k = choose|k: int| 0 <= k < self@.len() && self@[k] == predicate@;
                        assert(self.predicates[k]@ == predicate@);
                        assert(self.positions@[hash]@.contains(k as usize));
                        let j = choose|j: int|
                            0 <= j < candidates@.len() && candidates@[j] == k as usize;
                        assert(self.predicates[candidates[j] as int]@ != predicate@);
                    }
                }
                false
            },
            None => {
                proof {
                    if self@.contains(predicate@) {
                        let k = choose|k: int| 0 <= k < self@.len() && self@[k] == predicate@;
                        assert(self.predicates[k]@ == predicate@);
                    }
                }
                false
            },
        }
    }

    /// Add a predicate, whether or not an equal one was added before.
    pub fn push(&mut self, predicate: Predicate)
        requires
            old(self).well_formed(),
        ensures
            final(self).well_formed(),
            final(self)@ == old(self)@.push(predicate@),
    {
        let hash: u64 = hash_predicate(&predicate);
        let position: usize = self.predicates.len();
        let mut positions: Vec<usize> = match bucket(&self.positions, hash) {
            Some(positions) => positions.duplicate(),
            None => Vec::new(),
        };
        let ghost before = positions@;
        proof {
            if self.positions@.contains_key(hash) {
                assert(deep(before) == deep(self.positions@[hash]@));
                assert(before =~= self.positions@[hash]@) by {
                    assert forall|k: int| 0 <= k < before.len() implies before[k]
                        == self.positions@[hash]@[k] by {
                        assert(deep(before)[k] == deep(self.positions@[hash]@)[k]);
                    }
                }
            }
        }
        positions.push(position);
        let ghost after = positions@;
        set_bucket(&mut self.positions, hash, positions);
        self.predicates.push(predicate);
        proof {
            assert(after[before.len() as int] == position);
            assert forall|i: int| 0 <= i < self.predicates.len() implies {
                &&& self.positions@.contains_key(
                    predicate_hash(#[trigger] self.predicates[i]@),
                )
                &&& self.positions@[predicate_hash(self.predicates[i]@)]@.contains(i as usize)
            } by {
                if i < position {
                    let own = predicate_hash(old(self).predicates[i]@);
                    assert(old(self).positions@[own]@.contains(i as usize));
                    if own == hash {
                        let k = choose|k: int| 0 <= k < before.len() && before[k] == i as usize;
                        assert(after[k] == i as usize);
                    }
                }
            }
            assert forall|other: u64, k: int|
                self.positions@.contains_key(other) && 0 <= k
                    < self.positions@[other]@.len() implies #[trigger] self.positions@[other]@[k]
                < self.predicates.len() by {
                if other == hash {
                    if k < before.len() {
                        assert(old(self).positions@[hash]@[k] < old(self).predicates.len());
                    }
                } else {
                    assert(old(self).positions@[other]@[k] < old(self).predicates.len());
                }
            }
        }
    }

    /// Add a predicate unless an equal one was added before, and say whether it was added.
    pub fn insert(&mut self, predicate: Predicate) -> (added: bool)
        requires
            old(self).well_formed(),
        ensures
            final(self).well_formed(),
            added == !old(self)@.contains(predicate@),
            final(self)@ == push_unique(old(self)@, predicate@),
    {
        if self.contains(&predicate) {
            return false;
        }
        self.push(predicate);
        true
    }

    /// The predicates in the order in which they were added.
    pub fn into_predicates(self) -> (result: Vec<Predicate>)
        ensures
            deep(result@) == self@,
    {
        self.predicates
    }
}

/// `predicates` with `predicate` behind them, unless it is among them.
pub open spec fn push_unique(predicates: Seq<PredicateV>, predicate: PredicateV) -> Seq<PredicateV> {
    if predicates.contains(predicate) {
        predicates
    } else {
        predicates.push(predicate)
    }
}

/// `predicates` with the new ones of `added`, from `from` on, behind them.
pub open spec fn unique_from(
    predicates: Seq<PredicateV>,
    added: Seq<PredicateV>,
    from: int,
) -> Seq<PredicateV>
    decreases added.len() - from,
{
    if from >= added.len() {
        predicates
    } else {
        unique_from(push_unique(predicates, added[from]), added, from + 1)
    }
}

/// `predicates` with the new ones of `added` behind them: of each, the first occurrence.
pub open spec fn unique_extension(
    predicates: Seq<PredicateV>,
    added: Seq<PredicateV>,
) -> Seq<PredicateV> {
    unique_from(predicates, added, 0)
}

/// Put the predicates of `added` that are new behind `predicates`.
pub fn extend_unique(predicates: &mut Vec<Predicate>, added: Vec<Predicate>)
    ensures
        deep(final(predicates)@) == unique_extension(deep(old(predicates)@), deep(added@)),
{
    let mut index = PredicateIndex::new();
    let ghost before = deep(predicates@);
    let mut i: usize = 0;
    while i < predicates.len()
        invariant
            i <= predicates.len(),
            *predicates == *old(predicates),
            index.well_formed(),
            index@ == deep(predicates@).take(i as int),
        decreases predicates.len() - i,
    {
        assert(deep(predicates@)[i as int] == predicates[i as int]@);
        index.push(predicates[i].duplicate());
        assert(deep(predicates@).take(i + 1) =~= deep(predicates@).take(i as int).push(
            deep(predicates@)[i as int],
        ));
        i += 1;
    }
    assert(index@ =~= before);
    let mut k: usize = 0;
    while k < added.len()
        invariant
            k <= added.len(),
            index.well_formed(),
            unique_extension(before, deep(added@)) == unique_from(
                index@,
                deep(added@),
                k as int,
            ),
        decreases added.len() - k,
    {
        assert(deep(added@)[k as int] == added[k as int]@);
        index.insert(added[k].duplicate());
        k += 1;
    }
    *predicates = index.into_predicates();
}

/// Extending keeps what was there, in place, and adds nothing that was there already.
pub proof fn law_extension_keeps_prefix(
    predicates: Seq<PredicateV>,
    added: Seq<PredicateV>,
    from: int,
)
    requires
        0 <= from <= added.len(),
    ensures
        unique_from(predicates, added, from).len() >= predicates.len(),
        unique_from(predicates, added, from).take(predicates.len() as int) == predicates,
    decreases added.len() - from,
{
    let result = unique_from(predicates, added, from);
    if from < added.len() {
        let next = push_unique(predicates, added[from]);
        law_extension_keeps_prefix(next, added, from + 1);
        assert(result.take(predicates.len() as int) =~= next.take(predicates.len() as int));
        assert(next.take(predicates.len() as int) =~= predicates);
    } else {
        assert(result.take(predicates.len() as int) =~= predicates);
    }
}

/// Predicates without duplicates stay so when they are extended.
pub proof fn law_extension_without_duplicates(
    predicates: Seq<PredicateV>,
    added: Seq<PredicateV>,
    from: int,
)
    requires
        0 <= from <= added.len(),
        predicates.no_duplicates(),
    ensures
        unique_from(predicates, added, from).no_duplicates(),
    decreases added.len() - from,
{
    if from < added.len() {
        law_extension_without_duplicates(
            push_unique(predicates, added[from]),
            added,
            from + 1,
        );
    }
}

/// An extension holds exactly what was there and what was added.
pub proof fn law_extension_contains(
    predicates: Seq<PredicateV>,
    added: Seq<PredicateV>,
    from: int,
    predicate: PredicateV,
)
    requires
        0 <= from <= added.len(),
    ensures
        unique_from(predicates, added, from).contains(predicate) <==> predicates.contains(predicate)
            || exists|i: int| from <= i < added.len() && added[i] == predicate,
    decreases added.len() - from,
{
    if from < added.len() {
        let next = push_unique(predicates, added[from]);
        law_extension_contains(next, added, from + 1, predicate);
        assert(next.contains(added[from])) by {
            if !predicates.contains(added[from]) {
                assert(next[predicates.len() as int] == added[from]);
            }
        }
        if predicates.contains(predicate) {
            let i = choose|i: int| 0 <= i < predicates.len() && predicates[i] == predicate;
            assert(next[i] == predicate);
        }
    }
}

} // verus!
