//! Names of variables: decimal counters, prefixes, and names not yet in use.

use vstd::prelude::*;
use vstd::seq_lib::seq_to_set_is_finite;
use vstd::set_lib::{lemma_int_range, lemma_len_subset, lemma_map_size, set_int_range};
use vstd::relations::injective_on;
use crate::model::{contains, deep, group_deep};
use crate::term::{Variable, VariableV};

verus! {

broadcast use group_deep;

/// The decimal digit for `value`.
pub open spec fn digit(value: int) -> char {
    (value + 48) as char
}

/// `value` in decimal notation.
pub open spec fn decimal(value: nat) -> Seq<char>
    decreases value,
{
    if value < 10 {
        seq![digit(value as int)]
    } else {
        decimal(value / 10).push(digit((value % 10) as int))
    }
}

fn digit_text(value: u64) -> (text: &'static str)
    requires
        value < 10,
    ensures
        text@ == seq![digit(value as int)],
{
    proof {
        reveal_strlit("0");
        reveal_strlit("1");
        reveal_strlit("2");
        reveal_strlit("3");
        reveal_strlit("4");
        reveal_strlit("5");
        reveal_strlit("6");
        reveal_strlit("7");
        reveal_strlit("8");
        reveal_strlit("9");
    }
    let text: &'static str = match value {
        0 => "0",
        1 => "1",
        2 => "2",
        3 => "3",
        4 => "4",
        5 => "5",
        6 => "6",
        7 => "7",
        8 => "8",
        _ => "9",
    };
    assert(text@ =~= seq![digit(value as int)]);
    text
}

/// `value` in decimal notation.
pub fn decimal_text(value: u64) -> (text: String)
    ensures
        text@ == decimal(value as nat),
    decreases value,
{
    if value < 10 {
        digit_text(value).to_owned()
    } else {
        let mut text = decimal_text(value / 10);
        text.append(digit_text(value % 10));
        assert(text@ =~= decimal(value as nat));
        text
    }
}

/// Whether `c` is a decimal digit.
pub open spec fn is_digit(c: char) -> bool {
    48 <= c as int <= 57
}

/// Different numbers are written differently.
pub proof fn lemma_decimal_injective(left: nat, right: nat)
    requires
        decimal(left) == decimal(right),
    ensures
        left == right,
    decreases left,
{
    lemma_decimal_shape(left);
    lemma_decimal_shape(right);
    let a = decimal(left);
    let b = decimal(right);
    assert(a.last() == digit((left % 10) as int));
    assert(b.last() == digit((right % 10) as int));
    assert(left % 10 == right % 10);
    if left >= 10 && right >= 10 {
        assert(a.drop_last() =~= decimal(left / 10));
        assert(b.drop_last() =~= decimal(right / 10));
        lemma_decimal_injective(left / 10, right / 10);
    } else if left >= 10 {
        lemma_decimal_shape(left / 10);
        assert(a.len() >= 2);
        assert(false);
    } else if right >= 10 {
        lemma_decimal_shape(right / 10);
        assert(b.len() >= 2);
        assert(false);
    }
}

/// Decimal notation is not empty, ends in the last digit, and holds digits only.
pub proof fn lemma_decimal_shape(value: nat)
    ensures
        decimal(value).len() >= 1,
        decimal(value).last() == digit((value % 10) as int),
        forall|i: int| 0 <= i < decimal(value).len() ==> is_digit(#[trigger] decimal(value)[i]),
    decreases value,
{
    if value >= 10 {
        lemma_decimal_shape(value / 10);
    }
}

// ---------------------------------------------------------------------------------------------
// Fresh variables
// ---------------------------------------------------------------------------------------------
/// The number after `counter`, which wraps around at the end of its range.
pub open spec fn next_counter(counter: u64) -> u64 {
    if counter == u64::MAX {
        0
    } else {
        (counter + 1) as u64
    }
}

/// The name made from `base` and `counter`.
pub open spec fn counted_name(base: Seq<char>, counter: u64) -> Seq<char> {
    base + seq!['!'] + decimal(counter as nat)
}

/// The first counter from `counter` on, of at most `fuel`, whose name is not in `avoided`.
pub open spec fn free_counter(
    base: Seq<char>,
    avoided: Seq<Seq<char>>,
    counter: u64,
    fuel: nat,
) -> u64
    decreases fuel,
{
    if fuel == 0 || !avoided.contains(counted_name(base, counter)) {
        counter
    } else {
        free_counter(base, avoided, next_counter(counter), (fuel - 1) as nat)
    }
}

/// The counter whose name is used for the next fresh variable.
pub open spec fn fresh_counter_for(
    base: Seq<char>,
    avoided: Seq<Seq<char>>,
    counter: u64,
) -> u64 {
    free_counter(base, avoided, counter, avoided.len())
}

/// The fresh variable made from `variable`.
pub open spec fn fresh_from(
    variable: VariableV,
    avoided: Seq<Seq<char>>,
    counter: u64,
) -> VariableV {
    VariableV {
        name: counted_name(variable.name, fresh_counter_for(variable.name, avoided, counter)),
        ..variable
    }
}

fn counted_text(base: &String, counter: u64) -> (text: String)
    ensures
        text@ == counted_name(base@, counter),
{
    let mut text = base.clone();
    proof {
        reveal_strlit("!");
    }
    text.append("!");
    text.append(decimal_text(counter).as_str());
    assert(text@ =~= counted_name(base@, counter));
    text
}

/// Make a variable whose name is not in `avoided`, and add its name there.
pub fn fresh_variable(variable: &Variable, avoided: &mut Vec<String>, counter: &mut u64) -> (fresh:
    Variable)
    ensures
        fresh@ == fresh_from(variable@, deep(old(avoided)@), *old(counter)),
        deep(final(avoided)@) == deep(old(avoided)@).push(fresh@.name),
        *final(counter) == next_counter(
            fresh_counter_for(variable@.name, deep(old(avoided)@), *old(counter)),
        ),
{
    let ghost names = deep(avoided@);
    let ghost start = *counter;
    let mut fuel: usize = avoided.len();
    let mut current: u64 = *counter;
    let mut name = counted_text(&variable.name, current);
    while fuel > 0 && contains(avoided, &name)
        invariant
            *avoided == *old(avoided),
            names == deep(avoided@),
            name@ == counted_name(variable@.name, current),
            fresh_counter_for(variable@.name, names, start) == free_counter(
                variable@.name,
                names,
                current,
                fuel as nat,
            ),
        decreases fuel,
    {
        current =
        if current == u64::MAX {
            0
        } else {
            current + 1
        };
        fuel = fuel - 1;
        name = counted_text(&variable.name, current);
    }
    *counter =
    if current == u64::MAX {
        0
    } else {
        current + 1
    };
    avoided.push(name.clone());
    variable.with_name(name)
}

// ---------------------------------------------------------------------------------------------
// Laws
// ---------------------------------------------------------------------------------------------
/// Of more names than there are in `avoided`, all different, one is not there.
pub proof fn lemma_some_name_is_free(avoided: Seq<Seq<char>>, name: spec_fn(int) -> Seq<char>)
    requires
        forall|i: int, j: int|
            #![trigger name(i), name(j)]
            0 <= i <= avoided.len() && 0 <= j <= avoided.len() && name(i) == name(j) ==> i == j,
    ensures
        exists|i: int| 0 <= i <= avoided.len() && !avoided.contains(#[trigger] name(i)),
{
    if forall|i: int| 0 <= i <= avoided.len() ==> avoided.contains(#[trigger] name(i)) {
        let numbers = set_int_range(0, (avoided.len() + 1) as int);
        let names = numbers.map(name);
        lemma_int_range(0, (avoided.len() + 1) as int);
        assert(injective_on(name, numbers)) by {
            assert forall|a: int, b: int|
                #![trigger name(a), name(b)]
                numbers.contains(a) && numbers.contains(b) && name(a) == name(b) implies a
                == b by {}
        }
        lemma_map_size(numbers, names, name);
        seq_to_set_is_finite(avoided);
        assert(names.subset_of(avoided.to_set())) by {
            assert forall|text: Seq<char>| names.contains(text) implies #[trigger] avoided.to_set().contains(
                text,
            ) by {
                let i = choose|i: int| numbers.contains(i) && #[trigger] name(i) == text;
                assert(avoided.contains(name(i)));
            }
        }
        lemma_len_subset(names, avoided.to_set());
        avoided.lemma_cardinality_of_set();
        assert(false);
    }
}

/// The counter `steps` behind `counter`.
pub open spec fn counter_behind(counter: u64, steps: int) -> u64 {
    if counter + steps <= u64::MAX {
        (counter + steps) as u64
    } else {
        (counter + steps - u64::MAX - 1) as u64
    }
}

proof fn lemma_free_counter(
    base: Seq<char>,
    avoided: Seq<Seq<char>>,
    counter: u64,
    fuel: nat,
    steps: int,
)
    requires
        0 <= steps <= fuel <= u64::MAX,
        !avoided.contains(counted_name(base, counter_behind(counter, steps))),
    ensures
        !avoided.contains(counted_name(base, free_counter(base, avoided, counter, fuel))),
    decreases fuel,
{
    if fuel > 0 && avoided.contains(counted_name(base, counter)) {
        assert(steps > 0);
        assert(counter_behind(next_counter(counter), steps - 1) == counter_behind(
            counter,
            steps,
        ));
        lemma_free_counter(
            base,
            avoided,
            next_counter(counter),
            (fuel - 1) as nat,
            steps - 1,
        );
    }
}

proof fn lemma_counted_name_injective(base: Seq<char>, left: u64, right: u64)
    requires
        counted_name(base, left) == counted_name(base, right),
    ensures
        left == right,
{
    let start = base.len() + 1;
    let a = counted_name(base, left);
    let b = counted_name(base, right);
    assert(a.subrange(start as int, a.len() as int) =~= decimal(left as nat));
    assert(b.subrange(start as int, b.len() as int) =~= decimal(right as nat));
    lemma_decimal_injective(left as nat, right as nat);
}

/// A fresh variable has a name that is not in use.
pub proof fn law_fresh_name_is_new(variable: VariableV, avoided: Seq<Seq<char>>, counter: u64)
    requires
        avoided.len() <= u64::MAX,
    ensures
        !avoided.contains(fresh_from(variable, avoided, counter).name),
{
    let base = variable.name;
    let name = |i: int| counted_name(base, counter_behind(counter, i));
    assert forall|i: int, j: int|
        #![trigger name(i), name(j)]
        0 <= i <= avoided.len() && 0 <= j <= avoided.len() && name(i) == name(j) implies i == j by {
        lemma_counted_name_injective(
            base,
            counter_behind(counter, i),
            counter_behind(counter, j),
        );
    }
    lemma_some_name_is_free(avoided, name);
    let i = choose|i: int| 0 <= i <= avoided.len() && !avoided.contains(#[trigger] name(i));
    lemma_free_counter(base, avoided, counter, avoided.len(), i);
}

} // verus!
